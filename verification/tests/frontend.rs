//! End-to-end tests of the tokenizer, parser and compiler.

use aslang::compiler::{CompileError, Compiler};
use aslang::parser::{Expression, ParseError, Parser, Statement, AST};

/// The numeric reading of each token: whether it parses as a 64-bit float
/// and, if so, the bit pattern of its value.
fn number_table(tokens: &[String]) -> Vec<Option<u64>> {
    tokens.iter().map(|t| t.parse::<f64>().ok().map(|v| v.to_bits())).collect()
}

fn parse_source(src: &str) -> Result<AST, ParseError> {
    let mut p = Parser::new();
    p.tokenize(src);
    let nums = number_table(&p.tokens);
    p.parse(src, &nums)
}

fn compile_source(src: &str) -> Result<Vec<u8>, CompileError> {
    let ast = parse_source(src).expect("parse failed");
    let mut c = Compiler::new();
    c.compile(&ast)
}

fn le_f64(v: f64) -> Vec<u8> {
    v.to_le_bytes().to_vec()
}

fn le_u32(v: u32) -> Vec<u8> {
    v.to_le_bytes().to_vec()
}

#[test]
fn tokenize_is_deterministic() {
    let src = "let x = 5 \t output x \n";
    let mut p1 = Parser::new();
    p1.tokenize(src);
    let mut p2 = Parser::new();
    p2.tokenize(src);
    assert_eq!(p1.tokens, p2.tokens);
    p2.tokenize(src);
    assert_eq!(p1.tokens, p2.tokens);
}

#[test]
fn tokenize_splits_on_whitespace_runs() {
    let mut p = Parser::new();
    p.tokenize("  a  bb\t c \n");
    assert_eq!(p.tokens, vec!["a".to_string(), "bb".to_string(), "c".to_string()]);
    assert_eq!(p.current, 0);
}

#[test]
fn tokenize_empty_text_gives_no_tokens() {
    let mut p = Parser::new();
    p.tokenize("   \t\n ");
    assert!(p.tokens.is_empty());
    p.tokenize("");
    assert!(p.tokens.is_empty());
}

#[test]
fn cursor_operations() {
    let mut p = Parser::new();
    assert!(p.is_at_end());
    assert_eq!(p.peek(), "".to_string());
    assert_eq!(p.peek_next(), "".to_string());
    p.tokenize("let x");
    assert!(!p.is_at_end());
    assert_eq!(p.peek(), "let".to_string());
    assert_eq!(p.peek_next(), "x".to_string());
    assert_eq!(p.advance(), "let".to_string());
    assert_eq!(p.peek(), "x".to_string());
    assert_eq!(p.peek_next(), "".to_string());
    assert_eq!(p.advance(), "x".to_string());
    assert!(p.is_at_end());
}

#[test]
fn let_statement_parses_to_number_binding() {
    let ast = parse_source("let x = 5").expect("parse");
    assert_eq!(ast.statements.len(), 1);
    assert_eq!(
        ast.statements[0],
        Statement::Let { name: "x".to_string(), value: Expression::Number(5.0f64.to_bits()) }
    );
}

#[test]
fn string_literal_strips_quotes() {
    let ast = parse_source("output \"hi\"").expect("parse");
    assert_eq!(ast.statements[0], Statement::Output(Expression::String("hi".to_string())));
    let ast2 = parse_source("output \"\"").expect("parse");
    assert_eq!(ast2.statements[0], Statement::Output(Expression::String("".to_string())));
}

#[test]
fn call_and_array_expressions_parse() {
    let ast = parse_source("fn f ( a , b ) { } output f ( 1 , [ 2 , x ] )").expect("parse");
    assert_eq!(ast.statements.len(), 2);
    assert_eq!(
        ast.statements[0],
        Statement::Function {
            name: "f".to_string(),
            params: vec!["a".to_string(), "b".to_string()],
            body: vec![],
        }
    );
    assert_eq!(
        ast.statements[1],
        Statement::Output(Expression::Call {
            function: "f".to_string(),
            arguments: vec![
                Expression::Number(1.0f64.to_bits()),
                Expression::Array {
                    elements: vec![
                        Expression::Number(2.0f64.to_bits()),
                        Expression::Identifier("x".to_string()),
                    ],
                },
            ],
        })
    );
}

#[test]
fn missing_equals_is_expected_token_error() {
    let e = parse_source("let x 5").unwrap_err();
    assert_eq!(
        e,
        ParseError::ExpectedToken { expected: "=".to_string(), found: "5".to_string() }
    );
}

#[test]
fn truncated_let_is_end_of_input() {
    assert_eq!(parse_source("let x").unwrap_err(), ParseError::UnexpectedEndOfInput);
    assert_eq!(parse_source("let").unwrap_err(), ParseError::UnexpectedEndOfInput);
    assert_eq!(parse_source("output").unwrap_err(), ParseError::UnexpectedEndOfInput);
    assert_eq!(parse_source("fn f ( a").unwrap_err(), ParseError::UnexpectedEndOfInput);
    assert_eq!(parse_source("fn f ( ) {").unwrap_err(), ParseError::UnexpectedEndOfInput);
}

#[test]
fn unknown_statement_head_is_expected_token_error() {
    let e = parse_source("banana").unwrap_err();
    assert_eq!(
        e,
        ParseError::ExpectedToken { expected: "statement".to_string(), found: "banana".to_string() }
    );
}

#[test]
fn missing_paren_after_fn_name() {
    let e = parse_source("fn f x ) { }").unwrap_err();
    assert_eq!(
        e,
        ParseError::ExpectedToken { expected: "(".to_string(), found: "x".to_string() }
    );
}

#[test]
fn output_number_compiles_to_exact_bytes() {
    let bytes = compile_source("output 10").expect("compile");
    let mut expected = vec![1u8];
    expected.extend(le_f64(10.0));
    expected.push(8u8);
    assert_eq!(bytes, expected);
}

#[test]
fn undefined_variable_is_reported() {
    let ast = parse_source("output y").expect("parse");
    let mut c = Compiler::new();
    let e = c.compile(&ast).unwrap_err();
    assert_eq!(e, CompileError::UndefinedVariable { name: "y".to_string() });
    assert_eq!(e.message(), "Undefined variable: y".to_string());
}

#[test]
fn call_before_declaration_is_undefined_function() {
    let e = compile_source("output f ( ) fn f ( ) { }").unwrap_err();
    assert_eq!(e, CompileError::UndefinedFunction { name: "f".to_string() });
    assert_eq!(e.message(), "Undefined function: f".to_string());
}

#[test]
fn call_after_declaration_uses_recorded_entry_offset() {
    let bytes = compile_source("fn add ( a , b ) { output a } output add ( 1 , 2 )")
        .expect("compile");
    // function body first: LoadVar(0), Output, Return
    let mut expected = vec![3u8];
    expected.extend(le_u32(0));
    expected.push(8u8);
    expected.push(7u8);
    // then the call: the two arguments, Call(entry 0, argc 2), Output
    expected.push(1u8);
    expected.extend(le_f64(1.0));
    expected.push(1u8);
    expected.extend(le_f64(2.0));
    expected.push(5u8);
    expected.extend(le_u32(0)); // entry offset: instruction index 0, where the body began
    expected.extend(le_u32(2));
    expected.push(8u8);
    assert_eq!(bytes, expected);
}

#[test]
fn array_literal_lowers_to_elements_then_make_array() {
    let bytes = compile_source("output [ 1 , 2 , 3 ]").expect("compile");
    let mut expected = Vec::new();
    for v in [1.0f64, 2.0f64, 3.0f64] {
        expected.push(1u8);
        expected.extend(le_f64(v));
    }
    expected.push(6u8);
    expected.extend(le_u32(3));
    expected.push(8u8);
    assert_eq!(bytes, expected);
}

#[test]
fn empty_array_lowers_to_make_array_zero() {
    let bytes = compile_source("output [ ]").expect("compile");
    let mut expected = vec![6u8];
    expected.extend(le_u32(0));
    expected.push(8u8);
    assert_eq!(bytes, expected);
}

#[test]
fn let_lowers_to_value_then_store() {
    let bytes = compile_source("let x = 5").expect("compile");
    let mut expected = vec![1u8];
    expected.extend(le_f64(5.0));
    expected.push(4u8);
    expected.extend(le_u32(0));
    assert_eq!(bytes, expected);
}

#[test]
fn variable_load_uses_assigned_slot() {
    let bytes = compile_source("let x = 5 output x").expect("compile");
    let mut expected = vec![1u8];
    expected.extend(le_f64(5.0));
    expected.push(4u8);
    expected.extend(le_u32(0));
    expected.push(3u8);
    expected.extend(le_u32(0));
    expected.push(8u8);
    assert_eq!(bytes, expected);
}

#[test]
fn redeclaration_reuses_table_size_as_slot() {
    // the slot is the table size at declaration time, so a redeclaration
    // moves the name and the next new name collides with it
    let bytes = compile_source("let x = 1 let x = 2 let y = 3").expect("compile");
    let mut expected = Vec::new();
    expected.push(1u8);
    expected.extend(le_f64(1.0));
    expected.push(4u8);
    expected.extend(le_u32(0));
    expected.push(1u8);
    expected.extend(le_f64(2.0));
    expected.push(4u8);
    expected.extend(le_u32(1));
    expected.push(1u8);
    expected.extend(le_f64(3.0));
    expected.push(4u8);
    expected.extend(le_u32(1));
    assert_eq!(bytes, expected);
}

#[test]
fn string_payload_is_length_then_utf8_bytes() {
    let bytes = compile_source("output \"hi\"").expect("compile");
    let mut expected = vec![2u8];
    expected.extend(le_u32(2));
    expected.extend(b"hi");
    expected.push(8u8);
    assert_eq!(bytes, expected);
}

#[test]
fn empty_program_compiles_to_no_bytes() {
    let bytes = compile_source("").expect("compile");
    assert!(bytes.is_empty());
    let ast = parse_source("").expect("parse");
    assert!(ast.statements.is_empty());
}

#[test]
fn compile_resets_per_invocation() {
    let mut c = Compiler::new();
    let ast1 = parse_source("let x = 1").expect("parse");
    let b1 = c.compile(&ast1).expect("compile");
    // a second compilation of the same unit starts from fresh tables
    let b2 = c.compile(&ast1).expect("compile");
    assert_eq!(b1, b2);
    // and a variable of the first unit does not leak into the second
    let ast2 = parse_source("output x").expect("parse");
    assert_eq!(
        c.compile(&ast2).unwrap_err(),
        CompileError::UndefinedVariable { name: "x".to_string() }
    );
}

#[test]
fn parameters_bind_like_let_declarations() {
    // params a and b take slots 0 and 1; the body reads slot 0
    let bytes = compile_source("fn g ( a b ) { output a }").expect("compile");
    let mut expected = vec![3u8];
    expected.extend(le_u32(0));
    expected.push(8u8);
    expected.push(7u8);
    assert_eq!(bytes, expected);
}

#[test]
fn nested_function_body_compiles_inline() {
    // the body is lowered into the single global stream at the point of
    // declaration, followed by Return
    let bytes = compile_source("fn f ( ) { let x = 1 } output 2").expect("compile");
    let mut expected = Vec::new();
    expected.push(1u8);
    expected.extend(le_f64(1.0));
    expected.push(4u8);
    expected.extend(le_u32(0));
    expected.push(7u8);
    expected.push(1u8);
    expected.extend(le_f64(2.0));
    expected.push(8u8);
    assert_eq!(bytes, expected);
}

#[test]
fn parse_error_message_text() {
    let e = parse_source("let x").unwrap_err();
    assert_eq!(e.message(), "unexpected end of input".to_string());
    let e2 = parse_source("let x 5").unwrap_err();
    assert_eq!(e2.message(), "expected '=', found '5'".to_string());
}

#[test]
fn tokenize_splits_on_unicode_whitespace() {
    let mut p = Parser::new();
    p.tokenize("a\u{a0}b\u{2003}c");
    assert_eq!(p.tokens, vec!["a".to_string(), "b".to_string(), "c".to_string()]);
    // the same split that the standard library's whitespace test gives
    let std_split: Vec<String> = "a\u{a0}b\u{2003}c".split_whitespace().map(|s| s.to_string()).collect();
    assert_eq!(p.tokens, std_split);
}

#[test]
fn numeric_reading_follows_float_grammar() {
    // an overflowing exponent still reads as a number (infinity)
    let ast = parse_source("output 1e999").expect("parse");
    assert_eq!(ast.statements[0], Statement::Output(Expression::Number(f64::INFINITY.to_bits())));
    // a hexadecimal-looking token does not read as a number
    let ast2 = parse_source("let h = 1 output 0x1");
    assert!(matches!(
        ast2.expect("parse").statements[1],
        Statement::Output(Expression::Identifier(_))
    ));
    // a negative literal
    let ast3 = parse_source("output -2.5").expect("parse");
    assert_eq!(ast3.statements[0], Statement::Output(Expression::Number((-2.5f64).to_bits())));
}

#[test]
fn quote_only_token_is_empty_string_literal() {
    let ast = parse_source("output \"").expect("parse");
    assert_eq!(ast.statements[0], Statement::Output(Expression::String("".to_string())));
}

#[test]
fn entry_offset_counts_earlier_instructions() {
    // two instructions precede the declaration, so the recorded entry is 2
    let bytes = compile_source("let a = 1 fn f ( ) { } output f ( )").expect("compile");
    let mut expected = vec![1u8];
    expected.extend(1.0f64.to_le_bytes());
    expected.push(4u8);
    expected.extend(0u32.to_le_bytes());
    expected.push(7u8);
    expected.push(5u8);
    expected.extend(2u32.to_le_bytes());
    expected.extend(0u32.to_le_bytes());
    expected.push(8u8);
    assert_eq!(bytes, expected);
}
