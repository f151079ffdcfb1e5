use eval::ast::{FunctionKind, Node};
use eval::lexer::Lexer;
use eval::parser::Parser;
use eval::token::TokenKind;

fn show(node: &Node) -> String {
    match node {
        Node::Number(n) => n.token.value.clone(),
        Node::Unary(u) => format!("({} {})", u.token.value, show(&u.expression)),
        Node::Binary(b) => format!("({} {} {})", b.token.value, show(&b.left), show(&b.right)),
        Node::Enclosed(e) => format!("[{} {} {}]", e.left.value, show(&e.expression), e.right.value),
        Node::Function(f) => {
            let args: Vec<String> = f.args.iter().map(show).collect();
            format!("({:?} {})", f.kind, args.join(" "))
        }
    }
}

fn tree(source: &str) -> String {
    match Parser::parse(Lexer::lex(String::from(source))) {
        Ok(t) => {
            assert_eq!(t.eof.kind, TokenKind::EndOfFile);
            show(&t.root)
        }
        Err(d) => panic!("unexpected diagnostics {:?}", d),
    }
}

fn errors(source: &str) -> Vec<String> {
    match Parser::parse(Lexer::lex(String::from(source))) {
        Ok(t) => panic!("unexpected tree {}", show(&t.root)),
        Err(d) => d,
    }
}

#[test]
fn multiplication_binds_tighter() {
    assert_eq!(tree("2+3*4"), "(+ 2 (* 3 4))");
    assert_eq!(tree("2*3+4"), "(+ (* 2 3) 4)");
}

#[test]
fn exponentiation_is_left_associative() {
    assert_eq!(tree("2**3**2"), "(** (** 2 3) 2)");
    assert_eq!(tree("2^3**2"), "(** (^ 2 3) 2)");
    assert_eq!(tree("1-2-3"), "(- (- 1 2) 3)");
}

#[test]
fn enclosing_groups() {
    assert_eq!(tree("|3-7|"), "[| (- 3 7) |]");
    assert_eq!(tree("-(2+2)"), "(- [( (+ 2 2) )])");
}

#[test]
fn subtraction_of_zero_parses() {
    assert_eq!(tree("0-0"), "(- 0 0)");
}

#[test]
fn unary_minus_nests() {
    assert_eq!(tree("--5"), "(- (- 5))");
    assert_eq!(tree("-2*3"), "(* (- 2) 3)");
}

#[test]
fn function_calls() {
    assert_eq!(tree("pow(2,10)"), "(Pow 2 10)");
    assert_eq!(tree("pow(2 10)"), "(Pow 2 10)");
    assert_eq!(tree("sin(1+2)*2"), "(* (Sin (+ 1 2)) 2)");
    assert_eq!(tree(" log(8, 2) "), "(Log 8 2)");
}

#[test]
fn function_arity_is_checked() {
    assert_eq!(
        errors("pow(2)"),
        vec![String::from("function 'pow' takes 2 argument(s) but was given 1 at index 0")]
    );
    assert_eq!(
        errors("sqrt(1,2)"),
        vec![String::from("function 'sqrt' takes 1 argument(s) but was given 2 at index 0")]
    );
}

#[test]
fn unknown_function() {
    assert_eq!(errors("foo(1)"), vec![String::from("unknown function 'foo' at index 0")]);
}

#[test]
fn several_problems_are_all_reported() {
    let d = errors("2 + * 3 )");
    assert_eq!(
        d,
        vec![
            String::from("expected NumberToken but found Star '*' at index 4"),
            String::from("invalid number '' at index 2"),
            String::from("expected EndOfFile but found CloseParenthesis ')' at index 8"),
        ]
    );
    assert!(d.len() >= 2);
}

#[test]
fn lexical_errors_come_first() {
    assert_eq!(
        errors("3@5"),
        vec![
            String::from("invalid symbol '@' at index 1"),
            String::from("expected EndOfFile but found NumberToken '5' at index 2"),
        ]
    );
}

#[test]
fn missing_close_parenthesis() {
    assert_eq!(
        errors("(1"),
        vec![String::from("expected CloseParenthesis but found EndOfFile '\0' at index 2")]
    );
}

#[test]
fn lone_operator() {
    assert_eq!(
        errors("+"),
        vec![
            String::from("expected NumberToken but found Plus '+' at index 0"),
            String::from("invalid number '' at index 0"),
            String::from("expected NumberToken but found EndOfFile '\0' at index 1"),
            String::from("invalid number '' at index 1"),
        ]
    );
}

#[test]
fn function_kinds() {
    assert_eq!(FunctionKind::from("tanh"), FunctionKind::Tanh);
    assert_eq!(FunctionKind::from("root"), FunctionKind::Root);
    assert_eq!(FunctionKind::from("ln"), FunctionKind::Ln);
    assert_eq!(FunctionKind::from("Sin"), FunctionKind::BadValue);
    assert_eq!(FunctionKind::Cosh.get_args_count(), 1);
    assert_eq!(FunctionKind::Log.get_args_count(), 2);
    assert_eq!(FunctionKind::BadValue.get_args_count(), 0);
}
