use crsh::ast::Node;
use crsh::parser::{ParseError, Parser};
use crsh::scanner::Scanner;
use crsh::token::Token;

fn reg(s: &str) -> Token {
    Token::Regular(s.into())
}

fn strings(v: &[&str]) -> Vec<String> {
    v.iter().map(|s| s.to_string()).collect()
}

fn parse_line(line: &str) -> Result<Node, ParseError> {
    let tokens = Scanner::new(line.into()).scan_tokens().unwrap();
    Parser::new(tokens).parse()
}

#[test]
fn test_parser_parse_simple() {
    // "ls -a -b"
    let tokens = vec![reg("ls"), reg("-a"), reg("-b"), Token::EOF];
    let expected = Node::Pipeline(vec![Node::Command(strings(&["ls", "-a", "-b"]), vec![])]);
    let parser = Parser::new(tokens);
    assert_eq!(expected, parser.parse().unwrap());
}

#[test]
fn test_parser_parse_pipeline() {
    // "cat myfile | grep -r | wc"
    let tokens = vec![
        reg("cat"),
        reg("myfile"),
        Token::Pipe,
        reg("grep"),
        reg("-r"),
        Token::Pipe,
        reg("wc"),
        Token::EOF,
    ];
    let cmd0 = Node::Command(strings(&["cat", "myfile"]), vec![]);
    let cmd1 = Node::Command(strings(&["grep", "-r"]), vec![]);
    let cmd2 = Node::Command(strings(&["wc"]), vec![]);
    let expected = Node::Pipeline(vec![cmd0, cmd1, cmd2]);
    let parser = Parser::new(tokens);
    assert_eq!(expected, parser.parse().unwrap());
}

#[test]
fn parse_redirect() {
    let tokens = vec![
        reg("grep"),
        reg("hi"),
        Token::LRedirect,
        reg("input"),
        Token::RRedirect,
        reg("output"),
        Token::EOF,
    ];
    let redirect_vec = vec![Node::RedirectRead("input".into()), Node::RedirectWrite("output".into())];
    let expected = Node::Pipeline(vec![Node::Command(strings(&["grep", "hi"]), redirect_vec)]);
    let parser = Parser::new(tokens);
    assert_eq!(expected, parser.parse().unwrap());
}

#[test]
fn parse_redirect_append() {
    let tokens = vec![
        reg("grep"),
        reg("hi"),
        reg("myfile"),
        Token::RRedirect,
        Token::RRedirect,
        reg("output"),
        Token::EOF,
    ];
    let redirect_vec = vec![Node::RedirectAppend("output".into())];
    let expected =
        Node::Pipeline(vec![Node::Command(strings(&["grep", "hi", "myfile"]), redirect_vec)]);
    let parser = Parser::new(tokens);
    assert_eq!(expected, parser.parse().unwrap());
}

#[test]
fn round_trip_simple_line() {
    let expected = Node::Pipeline(vec![Node::Command(strings(&["ls", "-a", "-b"]), vec![])]);
    assert_eq!(expected, parse_line("ls -a -b").unwrap());
}

#[test]
fn round_trip_pipeline_line() {
    let expected = Node::Pipeline(vec![
        Node::Command(strings(&["cat", "myfile"]), vec![]),
        Node::Command(strings(&["grep", "-r"]), vec![]),
        Node::Command(strings(&["wc"]), vec![]),
    ]);
    assert_eq!(expected, parse_line("cat myfile | grep -r | wc").unwrap());
}

#[test]
fn round_trip_redirect_order() {
    let expected = Node::Pipeline(vec![Node::Command(
        strings(&["grep", "hi"]),
        vec![Node::RedirectRead("input".into()), Node::RedirectWrite("output".into())],
    )]);
    assert_eq!(expected, parse_line("grep hi < input > output").unwrap());
}

#[test]
fn round_trip_append_is_one_redirect() {
    let expected = Node::Pipeline(vec![Node::Command(
        strings(&["grep", "hi", "myfile"]),
        vec![Node::RedirectAppend("output".into())],
    )]);
    assert_eq!(expected, parse_line("grep hi myfile >> output").unwrap());
}

#[test]
fn round_trip_quoted_sequence() {
    let expected = Node::CommandSequence(vec![
        Node::Pipeline(vec![Node::Command(strings(&["echo", "hi! <\n\tthere&/;"]), vec![])]),
        Node::Pipeline(vec![Node::Command(strings(&["cat", "my bad file name"]), vec![])]),
    ]);
    assert_eq!(expected, parse_line("echo \"hi! <\n\tthere&/;\"; cat 'my bad file name'").unwrap());
}

#[test]
fn parse_redirect_without_file_is_unexpected() {
    assert!(matches!(parse_line("ls <"), Err(ParseError::NotExpectedToken(_))));
    assert!(matches!(parse_line("ls > | wc"), Err(ParseError::NotExpectedToken(_))));
    assert!(matches!(parse_line("ls >> ;"), Err(ParseError::NotExpectedToken(_))));
}

#[test]
fn parse_word_after_redirect_is_not_parsed() {
    assert!(matches!(parse_line("ls > out extra"), Err(ParseError::TokensNotParsed(_))));
}

#[test]
fn parse_without_eof_is_out_of_bounds() {
    let parser = Parser::new(vec![reg("ls")]);
    assert!(matches!(parser.parse(), Err(ParseError::IndexOutOfBounds(_))));
    let parser = Parser::new(vec![]);
    assert!(matches!(parser.parse(), Err(ParseError::IndexOutOfBounds(_))));
}

#[test]
fn parse_empty_line_gives_an_empty_command() {
    let parser = Parser::new(vec![Token::EOF]);
    assert!(parser.is_empty());
    let expected = Node::Pipeline(vec![Node::Command(vec![], vec![])]);
    assert_eq!(expected, parser.parse().unwrap());
    assert!(!Parser::new(vec![reg("ls"), Token::EOF]).is_empty());
    assert!(!Parser::new(vec![]).is_empty());
}

#[test]
fn parse_mixed_redirects_keep_their_order() {
    let expected = Node::Pipeline(vec![Node::Command(
        strings(&["sort"]),
        vec![
            Node::RedirectWrite("a".into()),
            Node::RedirectRead("in".into()),
            Node::RedirectAppend("b".into()),
        ],
    )]);
    assert_eq!(expected, parse_line("sort > a < in >> b").unwrap());
}
