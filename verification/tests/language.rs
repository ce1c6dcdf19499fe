use math_dsl::ast::Expression;
use math_dsl::error::RuntimeError;
use math_dsl::error::SyntaxErrorKind;
use math_dsl::interpreter::runtime::ExternalRuntimeFunction;
use math_dsl::interpreter::runtime::RuntimeAST;
use math_dsl::interpreter::runtime::RuntimeExpression;
use math_dsl::interpreter::ExternalHost;
use math_dsl::lexer::data;
use math_dsl::lexer::full_lex;
use math_dsl::lexer::token;
use math_dsl::lexer::LexedToken;
use math_dsl::lexer::LexerData;
use math_dsl::number::Number;
use math_dsl::parser::parse;

const DEPTH: usize = 2000;

fn tokens_of_language() -> LexerData {
    data(vec![
        token("LET", "let", false),
        token("CONST", "const", false),
        token("DEFINE", "define", false),
        token("WHERE", "where", false),
        token("EXTERNAL", "external", false),
        token("CACHE", "cache", false),
        token("COMMA", ",", false),
        token("PIPE", "|", false),
        token("OPEN_PARENTHESIS", "(", false),
        token("CLOSE_PARENTHESIS", ")", false),
        token("EQUALS", "==", false),
        token("NOT_EQUALS", "=!", false),
        token("BIGGER_OR_EQUALS", ">=", false),
        token("BIGGER", ">", false),
        token("SMALLER_OR_EQUALS", "<=", false),
        token("SMALLER", "<", false),
        token("ASSIGN", "=", false),
        token("PLUS", "+", false),
        token("MINUS", "-", false),
        token("DIVIDE", "/", false),
        token("MULTIPLY", "*", false),
        token("POW", "^", false),
        token("NUMBER", "([0-9_]+)", true),
        token("WHITESPACE", "\\s+", true),
        token("IDENTIFIER", "[a-zA-Z][A-Za-z0-9_]*(\\*|)", true),
    ])
}

fn scan(source: &str) -> Vec<LexedToken> {
    full_lex(source.to_owned(), "test.math".to_owned(), "#".to_owned(), tokens_of_language())
        .expect("the source has tokens only")
}

/// A host with a counter, a choice and a record of what was printed.
struct Host {
    printed: Vec<String>,
    ticks: usize,
}

impl Host {
    fn new() -> Host {
        Host { printed: Vec::new(), ticks: 0 }
    }

    fn functions() -> Vec<ExternalRuntimeFunction> {
        vec![
            ExternalRuntimeFunction::create("println", 1),
            ExternalRuntimeFunction::create("if", 3),
            ExternalRuntimeFunction::create("tick", 0),
        ]
    }
}

impl ExternalHost for Host {
    fn invoke_external(
        &mut self,
        name: &str,
        args: Vec<RuntimeExpression>,
        ast: &mut RuntimeAST,
        depth: usize,
    ) -> Result<Number, RuntimeError> {
        match name {
            "println" => {
                let value = args[0].execute(ast, self, depth)?;
                self.printed.push(value.to_string());
                Ok(Number::from_i64(0))
            }
            "if" => {
                let condition = args[0].execute(ast, self, depth)?;
                if condition.equals(&Number::from_i64(1)) {
                    args[1].execute(ast, self, depth)
                } else {
                    args[2].execute(ast, self, depth)
                }
            }
            "tick" => {
                self.ticks += 1;
                Ok(Number::from_i64(self.ticks as i64))
            }
            _ => Err(RuntimeError::FunctionNotFound),
        }
    }
}

/// Runs a program and gives the value of each of its expressions outside
/// declarations, as decimal text.
fn run_with(source: &str, host: &mut Host) -> Result<Vec<String>, RuntimeError> {
    let ast = parse(scan(source), Host::functions()).expect("the program parses");
    let expressions: Vec<Expression> = ast.loose_expressions.clone();
    let mut runtime = RuntimeAST::create(ast, Host::functions());
    let mut values = Vec::new();
    for expression in &expressions {
        let value = RuntimeExpression::execute_expr(expression, &mut runtime, host, DEPTH)?;
        values.push(value.to_string());
    }
    Ok(values)
}

fn run(source: &str) -> Result<Vec<String>, RuntimeError> {
    run_with(source, &mut Host::new())
}

fn values(source: &str) -> Vec<String> {
    run(source).expect("the program runs")
}

fn syntax_error(source: &str) -> SyntaxErrorKind {
    parse(scan(source), Host::functions()).expect_err("the program is refused").kind
}

#[test]
fn product_binds_more_strongly_than_sum() {
    assert_eq!(values("1 + 2 * 3\n"), vec!["7"]);
}

#[test]
fn parentheses_group() {
    assert_eq!(values("(1 + 2) * 3\n"), vec!["9"]);
    assert_eq!(values("3 * (1 + 2)\n"), vec!["9"]);
}

#[test]
fn operators_of_one_level_group_from_the_left() {
    // (2 ^ 3) * 2
    assert_eq!(values("2 ^ 3 * 2\n"), vec!["16"]);
    // (10 - 4) - 3
    assert_eq!(values("10 - 4 - 3\n"), vec!["3"]);
    assert_eq!(values("2 ^ (3 * 2)\n"), vec!["64"]);
    assert_eq!(values("100 / 10 / 5\n"), vec!["2"]);
    assert_eq!(values("2 * 3 ^ 2\n"), vec!["36"]);
}

#[test]
fn assignments_group_from_the_right() {
    assert_eq!(values("let a = 0\nlet b = 0\na = b = 3\na\nb\n"), vec!["3", "3", "3"]);
}

#[test]
fn comparisons_give_one_or_zero() {
    assert_eq!(values("3 > 2\n3 > 5\n"), vec!["1", "0"]);
}

#[test]
fn negation_of_a_literal() {
    assert_eq!(values("-5\n"), vec!["-5"]);
}

#[test]
fn negation_evaluates_its_operand_twice() {
    let mut host = Host::new();
    let result = run_with("-(tick())\n", &mut host).expect("the program runs");
    assert_eq!(host.ticks, 2);
    // 1 - (2 * 2)
    assert_eq!(result, vec!["-3"]);
}

#[test]
fn a_variable_may_use_a_later_one() {
    assert_eq!(values("let a = b\nlet b = 5\na\n"), vec!["5"]);
}

#[test]
fn a_constant_is_not_reassigned() {
    assert_eq!(syntax_error("const c = 1\nc = 2\n"), SyntaxErrorKind::ConstantReassigned);
}

#[test]
fn a_variable_is_reassigned() {
    assert_eq!(values("let v = 1\nv = 2\nv\n"), vec!["2", "2"]);
}

#[test]
fn a_reference_parameter_changes_the_variable() {
    let source = "let counter = 1\ndefine bump(x) = x = (x + 10)\nbump(counter*)\ncounter\n";
    assert_eq!(values(source), vec!["11", "11"]);
}

#[test]
fn a_value_parameter_leaves_the_variable() {
    let source = "let counter = 1\ndefine bump(x) = x = (x + 10)\nbump(counter)\ncounter\n";
    assert_eq!(values(source), vec!["11", "1"]);
}

#[test]
fn a_cached_function_refuses_a_reference() {
    let source = "let counter = 1\ndefine cache bump(x) = x = (x + 10)\nbump(counter*)\n";
    assert_eq!(run(source), Err(RuntimeError::ReferenceInCachedCall));
}

#[test]
fn a_cached_function_runs_its_body_once() {
    let mut host = Host::new();
    let source = "define cache f(n) = if(1 > n, tick(), n + f(n - 1))\nf(3)\nf(3)\n";
    let result = run_with(source, &mut host).expect("the program runs");
    assert_eq!(result[0], result[1]);
    assert_eq!(host.ticks, 1);
}

#[test]
fn division_rounds_toward_zero() {
    assert_eq!(values("-7 / 2\n7 / 2\n7 / -2\n-7 / -2\n"), vec!["-3", "3", "-3", "3"]);
}

#[test]
fn division_by_zero_fails() {
    assert_eq!(run("7 / 0\n"), Err(RuntimeError::DivisionByZero));
}

#[test]
fn an_expression_evaluates_twice_to_the_same() {
    let source = "let a = 4\ndefine f(x) = x * a + 1\nf(a) + a\nf(a) + a\n";
    assert_eq!(values(source), vec!["21", "21"]);
}
