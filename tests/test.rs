use crsh::Node;
use crsh::Parser;
use crsh::Token;

fn reg(s: &str) -> Token {
    Token::Regular(s.into())
}

fn strings(v: &[&str]) -> Vec<String> {
    v.iter().map(|s| s.to_string()).collect()
}

// The scanner ends every line with `EOF`; the parser expects it.
fn parse(mut tokens: Vec<Token>) -> Node {
    tokens.push(Token::EOF);
    Parser::new(tokens).parse().unwrap()
}

#[test]
fn test_parse_simple() {
    // "ls -a -b"
    let command = vec![reg("ls"), reg("-a"), reg("-b")];
    let expected = Node::Pipeline(vec![Node::Command(strings(&["ls", "-a", "-b"]), vec![])]);
    assert_eq!(expected, parse(command));
}

#[test]
fn test_parse_pipeline() {
    // "cat myfile | grep -r | wc"
    let command = vec![
        reg("cat"),
        reg("myfile"),
        Token::Pipe,
        reg("grep"),
        reg("-r"),
        Token::Pipe,
        reg("wc"),
    ];
    let cmd0 = Node::Command(strings(&["cat", "myfile"]), vec![]);
    let cmd1 = Node::Command(strings(&["grep", "-r"]), vec![]);
    let cmd2 = Node::Command(strings(&["wc"]), vec![]);
    let expected = Node::Pipeline(vec![cmd0, cmd1, cmd2]);
    assert_eq!(expected, parse(command));
}
