use compiler_bot::parser::{ParseErrorKind, Parser, ParserError, ParserResult};

fn parse_ok(input: &str) -> ParserResult {
    match Parser::get_components(input) {
        Ok(r) => r,
        Err(e) => panic!("expected a successful parse, got: {}", e.message()),
    }
}

fn parse_err(input: &str) -> ParserError {
    match Parser::get_components(input) {
        Ok(_) => panic!("expected the parse to fail"),
        Err(e) => e,
    }
}

#[test]
fn single_block_and_option_example() {
    let r = parse_ok("c++ -O2 ```cpp\nint main(){return 1;}\n```");
    assert_eq!(r.target, "c++");
    assert_eq!(r.options, vec!["-O2".to_string()]);
    assert_eq!(r.code, "int main(){return 1;}");
    assert_eq!(r.stdin, "");
    assert_eq!(r.url, "");
}

#[test]
fn remote_url_example() {
    let mut r = parse_ok("python < http://example.com/a.py");
    assert_eq!(r.target, "python");
    assert_eq!(r.url, "http://example.com/a.py");
    assert_eq!(r.code, "");
    Parser::apply_remote_body(&mut r, "print('hi')\n");
    assert_eq!(r.code, "print('hi')\n");
    assert_eq!(r.url, "http://example.com/a.py");
    assert_eq!(r.stdin, "");
}

#[test]
fn single_block_no_operators() {
    let r = parse_ok("rust ```rs\nfn main() {}\n```");
    assert_eq!(r.code, "fn main() {}");
    assert_eq!(r.stdin, "");
    assert_eq!(r.url, "");
    assert!(r.options.is_empty());
}

#[test]
fn two_blocks_first_is_stdin_second_is_code() {
    let r = parse_ok("rust ```\nIN DATA\n``` ```rs\nCODE\n```");
    assert_eq!(r.stdin, "IN DATA");
    assert_eq!(r.code, "CODE");
    assert_eq!(r.url, "");
}

#[test]
fn url_operator_without_operand_errs() {
    let e = parse_err("rust <");
    assert_eq!(e.kind, ParseErrorKind::MissingUrlOperand);
}

#[test]
fn pipe_followed_by_url_operator_errs() {
    let e = parse_err("rust | a < b");
    assert_eq!(e.kind, ParseErrorKind::OperatorOrderViolation);
}

#[test]
fn no_code_block_and_no_url_errs() {
    let e = parse_err("rust -O2");
    assert_eq!(e.kind, ParseErrorKind::NoCodeBlockFound);
}

#[test]
fn empty_input_errs_without_panicking() {
    let e = parse_err("");
    assert_eq!(e.kind, ParseErrorKind::NoCodeBlockFound);
}

#[test]
fn pipe_region_joins_tokens_with_single_spaces() {
    let r = parse_ok("py | a   b ```py\nx\n```");
    assert_eq!(r.stdin, "a b");
    assert_eq!(r.code, "x");
    assert!(r.options.is_empty());
}

#[test]
fn whitespace_only_stdin_region_normalizes_to_empty() {
    let r = parse_ok("py |   ```py\nx\n```");
    assert_eq!(r.stdin, "");
    assert_eq!(r.code, "x");
}

#[test]
fn repeated_whitespace_yields_no_empty_options() {
    let r = parse_ok("c++  -O2   -Wall ```c\ny\n```");
    assert_eq!(r.options, vec!["-O2".to_string(), "-Wall".to_string()]);
}

#[test]
fn later_url_operator_overwrites_earlier_url() {
    let r = parse_ok("c < http://a < http://b");
    assert_eq!(r.url, "http://b");
    assert_eq!(r.code, "");
}

#[test]
fn url_present_skips_code_blocks() {
    let mut r = parse_ok("c < http://x ```c\ninline code\n```");
    assert_eq!(r.url, "http://x");
    assert_eq!(r.code, "");
    Parser::apply_remote_body(&mut r, "fetched body");
    assert_eq!(r.code, "fetched body");
    assert_eq!(r.stdin, "");
}

#[test]
fn block_without_trailing_newline_kept_whole() {
    let r = parse_ok("c ```c\nmain()```");
    assert_eq!(r.code, "main()");
}

#[test]
fn fence_without_newline_is_no_block() {
    let e = parse_err("c ```abc```");
    assert_eq!(e.kind, ParseErrorKind::NoCodeBlockFound);
}

#[test]
fn find_code_block_uses_first_two_of_three() {
    let mut r = ParserResult {
        url: String::new(),
        stdin: String::new(),
        target: String::new(),
        code: String::new(),
        options: Vec::new(),
    };
    let out = Parser::find_code_block(&mut r, "```\nA\n``` ```\nB\n``` ```\nC\n```");
    assert!(out.is_ok());
    assert_eq!(r.stdin, "A");
    assert_eq!(r.code, "B");
}

#[test]
fn parser_error_carries_its_message() {
    let e = ParserError::new(ParseErrorKind::RemoteFetchFailed, "could not fetch");
    assert_eq!(e.kind, ParseErrorKind::RemoteFetchFailed);
    assert_eq!(e.message(), "could not fetch");
}

#[test]
fn language_tag_line_is_skipped() {
    let r = parse_ok("hs ```haskell\nmain = pure ()\n```");
    assert_eq!(r.code, "main = pure ()");
}
