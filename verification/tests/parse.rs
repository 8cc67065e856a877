use querybinder::ast::Section;
use querybinder::lex_sql::Lexer;
use querybinder::parse::{parse, Parser};
use querybinder::Span;

fn resolve(input: &[u8], s: Span) -> String {
    s.resolve(input).to_string()
}

#[test]
fn well_formed_query() {
    let input = b"-- @query get_user\n-- id: Int\n-- -> User\nSELECT * FROM users WHERE id = ?;";
    let doc = parse(input).expect("parse should succeed");
    assert_eq!(doc.sections.len(), 1);
    match &doc.sections[0] {
        Section::Query(q) => {
            assert_eq!(resolve(input, q.annotation.name), "get_user");
            assert_eq!(q.annotation.parameters.len(), 1);
            assert_eq!(resolve(input, q.annotation.parameters[0].ident), "id");
            assert_eq!(resolve(input, q.annotation.parameters[0].type_), "Int");
            assert_eq!(resolve(input, q.annotation.result_type), "User");
            assert_eq!(resolve(input, q.body), "SELECT * FROM users WHERE id = ?;");
            assert!(q.docs.is_empty());
            assert_eq!(q.span, Span { start: 0, end: input.len() });
        }
        Section::Verbatim(_) => panic!("expected a query section"),
    }
}

#[test]
fn no_annotation_is_verbatim() {
    let input = b"SELECT 1;";
    let doc = parse(input).expect("parse should succeed");
    assert_eq!(doc.sections.len(), 1);
    match &doc.sections[0] {
        Section::Verbatim(s) => {
            assert_eq!(*s, Span { start: 0, end: input.len() });
        }
        Section::Query(_) => panic!("expected a verbatim section"),
    }
}

#[test]
fn missing_name_error_span_after_query() {
    let input = b"-- @query \nSELECT 1;";
    let err = parse(input).expect_err("parse should fail");
    // The span sits immediately after the `@query` keyword.
    assert_eq!(err.span, Span { start: 9, end: 9 });
    assert_eq!(err.message, "Expected a name for the query after '@query'.");
}

#[test]
fn parameters_keep_source_order() {
    let input = b"-- @query q\n-- a: Int, b: Text\n-- c: Bool\n-- -> R\nSELECT 1;";
    let doc = parse(input).expect("parse should succeed");
    match &doc.sections[0] {
        Section::Query(q) => {
            let names: Vec<String> = q
                .annotation
                .parameters
                .iter()
                .map(|p| resolve(input, p.ident))
                .collect();
            assert_eq!(names, vec!["a", "b", "c"]);
            let types: Vec<String> = q
                .annotation
                .parameters
                .iter()
                .map(|p| resolve(input, p.type_))
                .collect();
            assert_eq!(types, vec!["Int", "Text", "Bool"]);
        }
        Section::Verbatim(_) => panic!("expected a query section"),
    }
}

#[test]
fn sections_concatenate_to_input() {
    let input =
        b"CREATE TABLE t;\n\n-- docs\n-- @query get\n-- -> T\nSELECT 1;\n-- trailing comment\n";
    let doc = parse(input).expect("parse should succeed");
    assert_eq!(doc.sections.len(), 3);
    let mut rebuilt: Vec<u8> = Vec::new();
    for section in &doc.sections {
        let span = match section {
            Section::Verbatim(s) => *s,
            Section::Query(q) => q.span,
        };
        rebuilt.extend_from_slice(&input[span.start..span.end]);
    }
    assert_eq!(rebuilt, input);
}

#[test]
fn doc_lines_attach_to_query() {
    let input = b"-- fetches one user\n-- by id\n-- @query get\n-- -> T\nSELECT 1;";
    let doc = parse(input).expect("parse should succeed");
    match &doc.sections[0] {
        Section::Query(q) => {
            let docs: Vec<String> = q.docs.iter().map(|d| resolve(input, *d)).collect();
            assert_eq!(docs, vec![" fetches one user", " by id"]);
        }
        Section::Verbatim(_) => panic!("expected a query section"),
    }
}

#[test]
fn doc_comments_without_directive_stay_verbatim() {
    let input = b"-- just a comment\nSELECT 1;";
    let doc = parse(input).expect("parse should succeed");
    assert_eq!(doc.sections.len(), 1);
    match &doc.sections[0] {
        Section::Verbatim(s) => assert_eq!(*s, Span { start: 0, end: input.len() }),
        Section::Query(_) => panic!("expected a verbatim section"),
    }
}

#[test]
fn statement_without_terminator_runs_to_end() {
    let input = b"-- @query q\n-- -> T\nSELECT 1";
    let doc = parse(input).expect("parse should succeed");
    match &doc.sections[0] {
        Section::Query(q) => {
            assert_eq!(resolve(input, q.body), "SELECT 1");
            assert_eq!(q.span.end, input.len());
        }
        Section::Verbatim(_) => panic!("expected a query section"),
    }
}

#[test]
fn missing_result_type_line_is_an_error() {
    let input = b"-- @query q\nSELECT 1;";
    let err = parse(input).expect_err("parse should fail");
    assert_eq!(err.message, "Expected '-> ResultType' to end the annotation.");
}

#[test]
fn annotation_without_statement_is_an_error() {
    let input = b"-- @query q\n-- -> T\n";
    let err = parse(input).expect_err("parse should fail");
    assert_eq!(err.message, "Expected a SQL statement after the annotation.");
}

#[test]
fn parameter_without_colon_is_an_error() {
    let input = b"-- @query q\n-- a Int\n-- -> T\nSELECT 1;";
    let err = parse(input).expect_err("parse should fail");
    assert_eq!(err.message, "Expected ':' after the parameter name.");
}

#[test]
fn unknown_directive_is_an_error() {
    let input = b"-- @foo\nSELECT 1;";
    let err = parse(input).expect_err("parse should fail");
    assert_eq!(err.message, "Expected 'query' directive after '@'.");
}

#[test]
fn stray_byte_in_annotation_is_an_error() {
    let input = b"-- @query q!\n-- -> T\nSELECT 1;";
    let err = parse(input).expect_err("parse should fail");
    assert_eq!(err.message, "Unexpected character in annotation.");
    // The span lands on exactly the offending byte.
    assert_eq!(err.span, Span { start: 11, end: 12 });
}

#[test]
fn unterminated_string_is_an_error() {
    let input = b"'oops";
    let err = parse(input).expect_err("parse should fail");
    assert_eq!(err.message, "Invalid or unterminated token.");
    assert_eq!(err.span, Span { start: 0, end: input.len() });
}

#[test]
fn line_after_result_type_is_an_error() {
    let input = b"-- @query q\n-- -> T\n-- x: Int\nSELECT 1;";
    let err = parse(input).expect_err("parse should fail");
    assert_eq!(err.message, "Unexpected annotation line after the result type.");
}

#[test]
fn semicolon_inside_string_does_not_end_statement() {
    let input = b"-- @query q\n-- -> T\nSELECT ';' FROM t;";
    let doc = parse(input).expect("parse should succeed");
    match &doc.sections[0] {
        Section::Query(q) => {
            assert_eq!(resolve(input, q.body), "SELECT ';' FROM t;");
        }
        Section::Verbatim(_) => panic!("expected a query section"),
    }
}

#[test]
fn empty_input_parses_to_empty_document() {
    let doc = parse(b"").expect("parse should succeed");
    assert!(doc.sections.is_empty());
}

#[test]
fn parser_can_be_driven_by_hand() {
    let input = b"SELECT 2;";
    let lexer = Lexer::new(input);
    let tokens = lexer.run();
    let parser = Parser::new(input, tokens.as_slice());
    let doc = parser.parse_document().expect("parse should succeed");
    assert_eq!(doc.sections.len(), 1);
}

#[test]
fn parse_never_panics_on_arbitrary_bytes() {
    let cases: Vec<Vec<u8>> = vec![
        b"".to_vec(),
        b"--".to_vec(),
        b"--\n".to_vec(),
        b"-- @".to_vec(),
        b"-- @query".to_vec(),
        b"-- @query \n".to_vec(),
        b"'".to_vec(),
        b"/*".to_vec(),
        b"/*/".to_vec(),
        b";".to_vec(),
        b"-- @query x\n-- -> T\n'oops".to_vec(),
        b"-- @query x\n--\n-- -> T\nSELECT 1;".to_vec(),
        b"\xff\xfe\x00\x01".to_vec(),
        b"-- @query \xffname\nSELECT 1;".to_vec(),
        vec![b'-'; 100],
        vec![b'\n'; 100],
        vec![0xAA; 257],
    ];
    for case in &cases {
        // Success or error, the pipeline must terminate without panicking.
        let _ = parse(case);
    }
}

#[test]
fn arrow_without_type_is_an_error() {
    let input = b"-- @query q\n-- ->\nSELECT 1;";
    let err = parse(input).expect_err("parse should fail");
    assert_eq!(err.message, "Expected a result type after '->'.");
}

#[test]
fn token_after_query_name_is_an_error() {
    let input = b"-- @query q extra\n-- -> T\nSELECT 1;";
    let err = parse(input).expect_err("parse should fail");
    assert_eq!(err.message, "Unexpected token after the query name.");
}

#[test]
fn token_after_result_type_is_an_error() {
    let input = b"-- @query q\n-- -> T x\nSELECT 1;";
    let err = parse(input).expect_err("parse should fail");
    assert_eq!(err.message, "Unexpected token after the result type.");
}

#[test]
fn empty_annotation_line_is_an_error() {
    let input = b"-- @query q\n--\n-- -> T\nSELECT 1;";
    let err = parse(input).expect_err("parse should fail");
    assert_eq!(err.message, "Expected a parameter or '->' in the annotation.");
}

#[test]
fn parameter_line_starting_with_colon_is_an_error() {
    let input = b"-- @query q\n-- : Int\n-- -> T\nSELECT 1;";
    let err = parse(input).expect_err("parse should fail");
    assert_eq!(err.message, "Expected a parameter name.");
}

#[test]
fn parameter_without_type_is_an_error() {
    let input = b"-- @query q\n-- a:\n-- -> T\nSELECT 1;";
    let err = parse(input).expect_err("parse should fail");
    assert_eq!(err.message, "Expected a type after ':'.");
}

#[test]
fn trailing_comma_in_parameters_is_an_error() {
    let input = b"-- @query q\n-- a: Int,\n-- -> T\nSELECT 1;";
    let err = parse(input).expect_err("parse should fail");
    assert_eq!(err.message, "Expected a parameter after ','.");
}
