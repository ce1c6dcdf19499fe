use math_dsl::ast::Expression;
use math_dsl::ast::Function;
use math_dsl::ast::MathType;
use math_dsl::ast::Variable;
use math_dsl::ast::AST;
use math_dsl::error::SyntaxError;
use math_dsl::error::SyntaxErrorKind;
use math_dsl::interpreter::runtime::ExternalRuntimeFunction;
use math_dsl::interpreter::runtime::RuntimeExpression;
use math_dsl::lexer::data;
use math_dsl::lexer::full_lex;
use math_dsl::lexer::token;
use math_dsl::lexer::LexedToken;
use math_dsl::lexer::TokenKind;
use math_dsl::number::Number;
use math_dsl::parser::expression::actual_parse_expression;
use math_dsl::parser::expression::find_function;
use math_dsl::parser::expression::default_parse_infix;
use math_dsl::parser::expression::find_variable;
use math_dsl::parser::expression::infix_parser;
use math_dsl::parser::expression::infix_precedence;
use math_dsl::parser::expression::parse_expression;
use math_dsl::parser::expression::parse_expression_part;
use math_dsl::parser::expression::prefix_parser;
use math_dsl::parser::expression::PartExpression;
use math_dsl::parser::expression::Precedence;
use math_dsl::parser::parse;
use math_dsl::parser::token_queue;
use math_dsl::parser::TokenQueue;

fn scan(source: &str) -> Vec<LexedToken> {
    let kinds = data(vec![
        token("LET", "let", false),
        token("CONST", "const", false),
        token("DEFINE", "define", false),
        token("WHERE", "where", false),
        token("EXTERNAL", "external", false),
        token("CACHE", "cache", false),
        token("COMMA", ",", false),
        token("PIPE", "|", false),
        token("OPEN_PARENTHESIS", "(", false),
        token("CLOSE_PARENTHESIS", ")", false),
        token("EQUALS", "==", false),
        token("NOT_EQUALS", "=!", false),
        token("BIGGER_OR_EQUALS", ">=", false),
        token("BIGGER", ">", false),
        token("SMALLER_OR_EQUALS", "<=", false),
        token("SMALLER", "<", false),
        token("ASSIGN", "=", false),
        token("PLUS", "+", false),
        token("MINUS", "-", false),
        token("DIVIDE", "/", false),
        token("MULTIPLY", "*", false),
        token("POW", "^", false),
        token("NUMBER", "([0-9_]+)", true),
        token("WHITESPACE", "\\s+", true),
        token("IDENTIFIER", "[a-zA-Z][A-Za-z0-9_]*(\\*|)", true),
    ]);
    full_lex(source.to_owned(), "test.math".to_owned(), "#".to_owned(), kinds).unwrap()
}

/// The tokens of one expression: no whitespace and no line end.
fn expression_tokens(source: &str) -> Vec<LexedToken> {
    scan(source)
        .into_iter()
        .filter(|t| {
            let kind = t.token_type().kind();
            kind != TokenKind::Whitespace && kind != TokenKind::NewLine
        })
        .collect()
}

fn queue_of(source: &str) -> TokenQueue {
    token_queue(expression_tokens(source))
}

fn tree(source: &str) -> PartExpression {
    parse_expression_part(&mut queue_of(source), Precedence::Lowest).unwrap()
}

fn tree_error(source: &str) -> SyntaxError {
    parse_expression_part(&mut queue_of(source), Precedence::Lowest).unwrap_err()
}

/// The tree in a notation with every operator application in brackets.
fn show(tree: &PartExpression) -> String {
    match tree {
        PartExpression::Empty => "<empty>".to_owned(),
        PartExpression::Comment => "<comment>".to_owned(),
        PartExpression::Number { val, .. } => val.to_string(),
        PartExpression::Identifier { val, .. } => val.clone(),
        PartExpression::PrefixOperator { prefix, expression, .. } => {
            format!("[{}{}]", prefix, show(expression))
        }
        PartExpression::InfixOperator { operator, left, right, .. } => {
            format!("[{} {} {}]", show(left), operator, show(right))
        }
        PartExpression::FunctionInvocation { val, arguments, .. } => {
            let arguments: Vec<String> = arguments.iter().map(show).collect();
            format!("{}({})", show(val), arguments.join(", "))
        }
    }
}

fn shown(source: &str) -> String {
    show(&tree(source))
}

fn externals() -> Vec<ExternalRuntimeFunction> {
    vec![ExternalRuntimeFunction::create("println", 1), ExternalRuntimeFunction::create("if", 3)]
}

fn program(source: &str) -> AST {
    parse(scan(source), externals()).unwrap()
}

fn refused(source: &str) -> SyntaxError {
    parse(scan(source), externals()).unwrap_err()
}

fn text(expression: &Expression) -> String {
    RuntimeExpression::expr_to_string(expression)
}

fn variable<'a>(ast: &'a AST, name: &str) -> &'a Variable {
    ast.variables.iter().find(|v| v.name == name).unwrap()
}

fn function<'a>(ast: &'a AST, name: &str) -> &'a Function {
    ast.functions.iter().find(|f| f.name == name).unwrap()
}

#[test]
fn the_cursor_moves_over_the_tokens() {
    let mut queue = queue_of("a + b");
    assert!(!queue.is_empty());
    assert!(queue.is_not_empty());
    assert_eq!(queue.get().content(), "a");
    assert_eq!(queue.peek().content(), "a");
    assert_eq!(queue.get().content(), "+");
    queue.remove();
    assert_eq!(queue.get().content(), "b");
    queue.back();
    assert_eq!(queue.get().content(), "+");
    queue.remove();
    queue.remove();
    assert!(queue.is_empty());
    assert!(!queue.is_not_empty());
    assert_eq!(queue.pointer, 3);
    assert_eq!(queue.elements.len(), 3);
}

#[test]
fn an_empty_cursor_is_empty() {
    let queue = token_queue(Vec::new());
    assert!(queue.is_empty());
    assert!(!queue.is_not_empty());
}

#[test]
fn tokens_are_added_at_the_end() {
    let mut queue = queue_of("a");
    let mut other = queue_of("b c d");
    other.remove();
    queue.push(other.get().clone());
    let contents = |q: &TokenQueue| -> Vec<String> {
        q.elements.iter().map(|t| t.content().clone()).collect()
    };
    assert_eq!(contents(&queue), vec!["a", "c"]);
    let mut third = queue_of("x y z");
    third.remove();
    third.remove();
    queue.extend_left(third);
    assert_eq!(contents(&queue), vec!["a", "c", "z"]);
    queue.extend(other);
    assert_eq!(contents(&queue), vec!["a", "c", "z", "b", "c", "d"]);
    assert_eq!(queue.pointer, 0);
}

#[test]
fn the_unconsumed_tokens_of_a_consumed_cursor_are_none() {
    let mut queue = queue_of("a");
    let mut other = queue_of("b");
    other.remove();
    queue.extend_left(other);
    assert_eq!(queue.elements.len(), 1);
}

#[test]
fn tokens_of_a_kind_are_removed() {
    let mut queue = token_queue(scan("a  + b\n"));
    queue.remove();
    queue.remove_all(TokenKind::Whitespace);
    let contents: Vec<String> = queue.elements.iter().map(|t| t.content().clone()).collect();
    assert_eq!(contents, vec!["a", "+", "b", "\n"]);
    assert_eq!(queue.pointer, 0);
    queue.remove_all(TokenKind::Let);
    assert_eq!(queue.elements.len(), 4);
}

#[test]
fn the_levels_are_ordered() {
    let levels = [
        Precedence::Lowest,
        Precedence::Conditional,
        Precedence::Sum,
        Precedence::Product,
        Precedence::FunctionInvocation,
        Precedence::Prefix,
        Precedence::Assignment,
    ];
    for (i, level) in levels.iter().enumerate() {
        assert_eq!(level.order() as usize, i);
        let below = if i == 0 { levels[0] } else { levels[i - 1] };
        assert_eq!(level.one_less(), below);
        assert_eq!(level.clone(), *level);
    }
    let entries = Precedence::entries();
    assert_eq!(entries.len(), 6);
    for (i, level) in levels[..6].iter().enumerate() {
        assert_eq!(entries.get(&(i as u8)), Some(level));
    }
    assert_eq!(entries.get(&6), None);
}

#[test]
fn each_operator_has_its_level() {
    assert_eq!(infix_precedence(TokenKind::Plus), Precedence::Sum);
    assert_eq!(infix_precedence(TokenKind::Minus), Precedence::Sum);
    assert_eq!(infix_precedence(TokenKind::Multiply), Precedence::Product);
    assert_eq!(infix_precedence(TokenKind::Divide), Precedence::Product);
    assert_eq!(infix_precedence(TokenKind::Pow), Precedence::Product);
    assert_eq!(infix_precedence(TokenKind::Equals), Precedence::Conditional);
    assert_eq!(infix_precedence(TokenKind::NotEquals), Precedence::Conditional);
    assert_eq!(infix_precedence(TokenKind::BiggerOrEquals), Precedence::Conditional);
    assert_eq!(infix_precedence(TokenKind::Bigger), Precedence::Conditional);
    assert_eq!(infix_precedence(TokenKind::SmallerOrEquals), Precedence::Conditional);
    assert_eq!(infix_precedence(TokenKind::Assign), Precedence::Assignment);
    assert_eq!(infix_precedence(TokenKind::OpenParenthesis), Precedence::FunctionInvocation);
    assert_eq!(infix_precedence(TokenKind::Smaller), Precedence::Lowest);
    assert_eq!(infix_precedence(TokenKind::Number), Precedence::Lowest);
    assert_eq!(infix_precedence(TokenKind::Comma), Precedence::Lowest);
}

#[test]
fn operands_are_numbers_names_and_groups() {
    assert_eq!(shown("42"), "42");
    assert_eq!(shown("1_000"), "1000");
    assert_eq!(shown("x"), "x");
    assert_eq!(shown("x*"), "x*");
    assert_eq!(shown("(x)"), "x");
    assert_eq!(shown("((7))"), "7");
}

#[test]
fn a_stronger_operator_takes_the_operand() {
    assert_eq!(shown("1 + 2 * 3"), "[1 + [2 * 3]]");
    assert_eq!(shown("1 * 2 + 3"), "[[1 * 2] + 3]");
    assert_eq!(shown("1 == 2 + 3"), "[1 == [2 + 3]]");
    assert_eq!(shown("1 + 2 == 3"), "[[1 + 2] == 3]");
    assert_eq!(shown("1 + 2 >= 3 * 4"), "[[1 + 2] >= [3 * 4]]");
    assert_eq!(shown("a / b - c"), "[[a / b] - c]");
}

#[test]
fn operators_of_one_level_are_joined_from_the_left() {
    assert_eq!(shown("1 - 2 - 3"), "[[1 - 2] - 3]");
    assert_eq!(shown("2 ^ 3 * 2"), "[[2 ^ 3] * 2]");
    assert_eq!(shown("8 / 4 / 2"), "[[8 / 4] / 2]");
    assert_eq!(shown("1 + 2 - 3 + 4"), "[[[1 + 2] - 3] + 4]");
    assert_eq!(shown("1 == 2 >= 3"), "[[1 == 2] >= 3]");
    assert_eq!(shown("1 - 2 * 3 - 4"), "[[1 - [2 * 3]] - 4]");
    assert_eq!(shown("a = b = c"), "[a = [b = c]]");
}

#[test]
fn a_group_is_an_operand() {
    assert_eq!(shown("(1 + 2) * 3"), "[[1 + 2] * 3]");
    assert_eq!(shown("(1 - 2) - 3"), "[[1 - 2] - 3]");
    assert_eq!(shown("2 * (3 + (4 - 5))"), "[2 * [3 + [4 - 5]]]");
}

#[test]
fn what_follows_an_expression_in_a_group_is_dropped() {
    assert_eq!(shown("(1 2) + 3"), "[1 + 3]");
}

#[test]
fn an_assignment_takes_one_operand() {
    assert_eq!(shown("x = 1"), "[x = 1]");
    assert_eq!(shown("x = 1 + 2"), "[[x = 1] + 2]");
    assert_eq!(shown("x = (1 + 2)"), "[x = [1 + 2]]");
    assert_eq!(shown("x = -1"), "[x = [-1]]");
    assert_eq!(shown("1 + x = 2"), "[1 + [x = 2]]");
}

#[test]
fn a_minus_sign_takes_one_operand() {
    assert_eq!(shown("-5"), "[-5]");
    assert_eq!(shown("--5"), "[-[-5]]");
    assert_eq!(shown("-5 + 2"), "[[-5] + 2]");
    assert_eq!(shown("-(5 + 2)"), "[-[5 + 2]]");
    assert_eq!(shown("2 * -x"), "[2 * [-x]]");
    assert_eq!(shown("2 - -x"), "[2 - [-x]]");
}

#[test]
fn a_call_takes_its_arguments() {
    assert_eq!(shown("f()"), "f()");
    assert_eq!(shown("f(1)"), "f(1)");
    assert_eq!(shown("f(1, x, 2 + 3)"), "f(1, x, [2 + 3])");
    assert_eq!(shown("f(g(1), h())"), "f(g(1), h())");
    assert_eq!(shown("f(1) + 2"), "[f(1) + 2]");
    assert_eq!(shown("2 * f(1)"), "[2 * f(1)]");
    assert_eq!(shown("f((1 + 2) * 3)"), "f([[1 + 2] * 3])");
}

#[test]
fn a_call_that_the_tokens_end_in_has_the_arguments_read() {
    assert_eq!(shown("f(1"), "f(1)");
    assert_eq!(shown("f(1, 2"), "f(1, 2)");
    assert_eq!(shown("f("), "f()");
}

#[test]
fn a_token_that_joins_nothing_ends_the_expression() {
    let mut queue = queue_of("1 < 2");
    let tree = parse_expression_part(&mut queue, Precedence::Lowest).unwrap();
    assert_eq!(show(&tree), "1");
    assert_eq!(queue.pointer, 1);
    let mut queue = queue_of("1 2");
    parse_expression_part(&mut queue, Precedence::Lowest).unwrap();
    assert_eq!(queue.pointer, 1);
}

#[test]
fn the_threshold_decides_where_an_expression_ends() {
    let mut queue = queue_of("1 + 2 * 3");
    let tree = parse_expression_part(&mut queue, Precedence::Sum).unwrap();
    assert_eq!(show(&tree), "1");
    assert_eq!(queue.pointer, 1);
    let mut queue = queue_of("1 * 2 + 3");
    let tree = parse_expression_part(&mut queue, Precedence::Sum).unwrap();
    assert_eq!(show(&tree), "[1 * 2]");
    assert_eq!(queue.pointer, 3);
    let mut queue = queue_of("1 * 2 + 3");
    let tree = parse_expression_part(&mut queue, Precedence::Conditional).unwrap();
    assert_eq!(show(&tree), "[[1 * 2] + 3]");
    assert_eq!(queue.pointer, 5);
}

#[test]
fn an_operand_is_parsed_after_its_first_token() {
    let mut queue = queue_of("- x + 1");
    let minus = queue.peek();
    let tree = prefix_parser(&mut queue, minus).unwrap();
    assert_eq!(show(&tree), "[-x]");
    assert_eq!(queue.pointer, 2);
    let mut queue = queue_of("(1 + 2) * 3");
    let open = queue.peek();
    let tree = prefix_parser(&mut queue, open).unwrap();
    assert_eq!(show(&tree), "[1 + 2]");
    assert_eq!(queue.pointer, 5);
    let mut queue = queue_of("+ 1");
    let plus = queue.peek();
    assert_eq!(prefix_parser(&mut queue, plus).unwrap_err().kind, SyntaxErrorKind::UnknownPrefix);
}

#[test]
fn an_operator_joins_what_follows_it() {
    let mut queue = queue_of("a * b + c");
    let a = queue.peek();
    let left = prefix_parser(&mut queue, a).unwrap();
    let star = queue.peek();
    let product = infix_parser(&mut queue, left, star, Precedence::Product).unwrap();
    assert_eq!(show(&product), "[a * b]");
    assert_eq!(queue.pointer, 3);
    let plus = queue.peek();
    let sum = default_parse_infix(&mut queue, product, plus, Precedence::Sum).unwrap();
    assert_eq!(show(&sum), "[[a * b] + c]");
    assert_eq!(queue.pointer, 5);
    let mut queue = queue_of("a + b * c");
    queue.remove();
    let plus = queue.peek();
    let wide = default_parse_infix(&mut queue, tree("a"), plus, Precedence::Conditional).unwrap();
    assert_eq!(show(&wide), "[a + [b * c]]");
}

#[test]
fn a_token_that_joins_nothing_is_no_operator() {
    let mut queue = queue_of("a b");
    queue.remove();
    let b = queue.peek();
    let error = infix_parser(&mut queue, tree("a"), b, Precedence::Sum).unwrap_err();
    assert_eq!(error.kind, SyntaxErrorKind::UnknownInfix);
    assert_eq!(error.token.unwrap().content(), "b");
}

#[test]
fn each_node_keeps_its_token() {
    match tree("a + 1") {
        PartExpression::InfixOperator { token, left, right, .. } => {
            assert_eq!(*token.index(), 2);
            match *left {
                PartExpression::Identifier { token, .. } => assert_eq!(*token.index(), 0),
                _ => panic!("the left operand is a name"),
            }
            match *right {
                PartExpression::Number { token, .. } => assert_eq!(*token.index(), 4),
                _ => panic!("the right operand is a number"),
            }
        }
        _ => panic!("the tree is a sum"),
    }
    match tree("f(1)") {
        PartExpression::FunctionInvocation { token, .. } => assert_eq!(token.content(), "("),
        _ => panic!("the tree is a call"),
    }
    match tree("-x") {
        PartExpression::PrefixOperator { token, .. } => assert_eq!(token.content(), "-"),
        _ => panic!("the tree is a negation"),
    }
}

#[test]
fn no_tokens_are_no_expression() {
    let error = tree_error("");
    assert_eq!(error.kind, SyntaxErrorKind::NothingToParse);
    assert!(error.token.is_none());
    assert_eq!(tree_error("-").kind, SyntaxErrorKind::NothingToParse);
    assert_eq!(tree_error("1 +").kind, SyntaxErrorKind::NothingToParse);
    assert_eq!(tree_error("f(1,").kind, SyntaxErrorKind::NothingToParse);
}

#[test]
fn an_expression_does_not_start_with_an_operator() {
    let error = tree_error("* 2");
    assert_eq!(error.kind, SyntaxErrorKind::UnknownPrefix);
    assert_eq!(error.token.unwrap().content(), "*");
    assert_eq!(tree_error("1 + )").kind, SyntaxErrorKind::UnknownPrefix);
    assert_eq!(tree_error("let").kind, SyntaxErrorKind::UnknownPrefix);
    assert_eq!(tree_error(",").kind, SyntaxErrorKind::UnknownPrefix);
}

#[test]
fn a_number_token_must_hold_a_literal() {
    let error = tree_error("_1");
    assert_eq!(error.kind, SyntaxErrorKind::InvalidNumber);
    assert_eq!(error.token.unwrap().content(), "_1");
}

#[test]
fn a_group_must_hold_something() {
    let error = tree_error("1 + ()");
    assert_eq!(error.kind, SyntaxErrorKind::EmptyBlock);
    assert_eq!(*error.token.unwrap().index(), 5);
}

#[test]
fn a_group_must_be_closed() {
    let error = tree_error("2 * (1 + (3)");
    assert_eq!(error.kind, SyntaxErrorKind::MissingClosingParenthesis);
    assert_eq!(*error.token.as_ref().unwrap().index(), 4);
    assert_eq!(error.offset, 1);
    assert_eq!(tree_error("(").kind, SyntaxErrorKind::MissingClosingParenthesis);
}

#[test]
fn only_a_name_is_called() {
    let error = tree_error("1(2)");
    assert_eq!(error.kind, SyntaxErrorKind::IdentifierExpected);
    assert_eq!(error.token.unwrap().content(), "(");
    assert_eq!(shown("(f)(2)"), "f(2)");
    assert_eq!(tree_error("f(1)(2)").kind, SyntaxErrorKind::IdentifierExpected);
    assert_eq!(tree_error("-f(1)").kind, SyntaxErrorKind::IdentifierExpected);
}

#[test]
fn arguments_are_separated_by_commas() {
    let error = tree_error("f(1 2)");
    assert_eq!(error.kind, SyntaxErrorKind::CloseOrCommaExpected);
    assert_eq!(error.token.unwrap().content(), "2");
    assert_eq!(tree_error("f(1 < 2)").kind, SyntaxErrorKind::CloseOrCommaExpected);
}

#[test]
fn a_copy_of_a_tree_is_the_same_tree() {
    let first = tree("f(1, -x) + (2 * y)");
    assert_eq!(show(&first.clone()), show(&first));
    assert!(PartExpression::Comment.is_comment());
    assert!(!PartExpression::Comment.is_empty());
    assert!(PartExpression::Empty.clone().is_empty());
    assert!(!first.is_comment());
}

fn plain_variable(name: &str, constant: bool) -> Variable {
    Variable {
        name: name.to_owned(),
        definition: Expression::Empty,
        wherepart: Vec::new(),
        pre_definition: PartExpression::Empty,
        pre_wherepart: Vec::new(),
        constant,
    }
}

fn plain_function(name: &str, parameters: &[&str]) -> Function {
    Function {
        name: name.to_owned(),
        definition: Expression::Empty,
        parameters: parameters.iter().map(|p| (*p).to_owned()).collect(),
        pre_definition: PartExpression::Empty,
        cached: false,
    }
}

fn names() -> (Vec<Variable>, Vec<Function>) {
    (
        vec![plain_variable("x", false), plain_variable("c", true), plain_variable("x", true)],
        vec![plain_function("f", &["a"]), plain_function("f", &["a", "b"]), plain_function("g", &[])],
    )
}

fn resolved(source: &str) -> String {
    let (variables, functions) = names();
    text(&actual_parse_expression(tree(source), &variables, &functions).unwrap())
}

fn unresolved(source: &str) -> SyntaxError {
    let (variables, functions) = names();
    actual_parse_expression(tree(source), &variables, &functions).unwrap_err()
}

#[test]
fn names_are_looked_up() {
    let (variables, functions) = names();
    assert_eq!(find_variable(&variables, "x"), Some(0));
    assert_eq!(find_variable(&variables, "c"), Some(1));
    assert_eq!(find_variable(&variables, "y"), None);
    assert_eq!(find_function(&functions, "f", 1), Some(0));
    assert_eq!(find_function(&functions, "f", 2), Some(1));
    assert_eq!(find_function(&functions, "f", 0), None);
    assert_eq!(find_function(&functions, "g", 0), Some(2));
    assert_eq!(find_function(&functions, "h", 0), None);
}

#[test]
fn a_tree_resolves_to_an_expression() {
    assert_eq!(resolved("12"), "12");
    assert_eq!(resolved("x"), "x");
    assert_eq!(resolved("x + 2 * c"), "(x) + ((2) * (c))");
    assert_eq!(resolved("x == 2"), "(x) == (2)");
    assert_eq!(resolved("x =! 2"), "(x) =! (2)");
    assert_eq!(resolved("x >= 2"), "(x) >= (2)");
    assert_eq!(resolved("x > 2"), "(x) > (2)");
    assert_eq!(resolved("x <= 2"), "(x) <= (2)");
    assert_eq!(resolved("x / 2 ^ 3"), "((x) / (2)) ^ (3)");
    assert_eq!(resolved("f(x)"), "f(x)");
    assert_eq!(resolved("f(x, 1)"), "f(x, 1)");
    assert_eq!(resolved("g()"), "g()");
    assert_eq!(resolved("f(g()) - 1"), "(f(g())) - (1)");
    assert_eq!(resolved("x = 5"), "x = 5");
}

#[test]
fn a_negation_is_the_operand_less_twice_the_operand() {
    assert_eq!(resolved("-5"), "(5) - ((5) * (2))");
    assert_eq!(resolved("-x"), "(x) - ((x) * (2))");
    assert_eq!(resolved("-(g())"), "(g()) - ((g()) * (2))");
    assert_eq!(resolved("--1"), "((1) - ((1) * (2))) - (((1) - ((1) * (2))) * (2))");
}

#[test]
fn a_marked_name_resolves_to_a_reference() {
    assert_eq!(resolved("f(x*)"), "f(*x)");
    assert_eq!(resolved("x*"), "*x");
    assert_eq!(unresolved("y*").kind, SyntaxErrorKind::VariableNotFound);
}

#[test]
fn an_unknown_name_is_refused() {
    let error = unresolved("1 + y");
    assert_eq!(error.kind, SyntaxErrorKind::VariableNotFound);
    assert_eq!(error.token.unwrap().content(), "y");
    assert_eq!(unresolved("f(y)").kind, SyntaxErrorKind::VariableNotFound);
    assert_eq!(unresolved("-y").kind, SyntaxErrorKind::VariableNotFound);
    assert_eq!(unresolved("x = y").kind, SyntaxErrorKind::VariableNotFound);
    assert_eq!(unresolved("y = 1").kind, SyntaxErrorKind::VariableNotFound);
}

#[test]
fn an_unknown_function_is_refused() {
    let error = unresolved("1 + h(2)");
    assert_eq!(error.kind, SyntaxErrorKind::FunctionNotFound);
    assert_eq!(error.token.unwrap().content(), "h");
    assert_eq!(unresolved("f()").kind, SyntaxErrorKind::FunctionNotFound);
    assert_eq!(unresolved("f(1, 2, 3)").kind, SyntaxErrorKind::FunctionNotFound);
    assert_eq!(unresolved("g(1)").kind, SyntaxErrorKind::FunctionNotFound);
    // a variable is no function, and the arguments are looked at first
    assert_eq!(unresolved("x(1)").kind, SyntaxErrorKind::FunctionNotFound);
    assert_eq!(unresolved("h(y)").kind, SyntaxErrorKind::VariableNotFound);
}

#[test]
fn only_a_variable_is_assigned_to() {
    let error = unresolved("1 = 2");
    assert_eq!(error.kind, SyntaxErrorKind::AssignmentTarget);
    assert_eq!(error.token.unwrap().content(), "=");
    assert_eq!(unresolved("g() = 2").kind, SyntaxErrorKind::AssignmentTarget);
    assert_eq!(unresolved("x* = 2").kind, SyntaxErrorKind::AssignmentTarget);
}

#[test]
fn the_first_variable_of_a_name_decides_whether_it_is_constant() {
    let error = unresolved("c = 2");
    assert_eq!(error.kind, SyntaxErrorKind::ConstantReassigned);
    assert_eq!(error.token.unwrap().content(), "=");
    // `x` is declared twice, first as a variable
    assert_eq!(resolved("x = 2"), "x = 2");
    // the left side is looked at before the right
    assert_eq!(unresolved("c = y").kind, SyntaxErrorKind::ConstantReassigned);
}

fn token_of(source: &str) -> LexedToken {
    expression_tokens(source).remove(0)
}

fn number(value: i64) -> PartExpression {
    PartExpression::Number { val: Number::from_i64(value), token: token_of("0") }
}

#[test]
fn a_tree_that_no_parser_builds_is_refused() {
    let (variables, functions) = names();
    let resolve = |tree: PartExpression| {
        actual_parse_expression(tree, &variables, &functions).unwrap_err().kind
    };
    assert_eq!(resolve(PartExpression::Empty), SyntaxErrorKind::NotAnExpression);
    assert_eq!(resolve(PartExpression::Comment), SyntaxErrorKind::NotAnExpression);
    assert_eq!(
        resolve(PartExpression::PrefixOperator {
            prefix: "+".to_owned(),
            expression: Box::new(number(1)),
            token: token_of("+"),
        }),
        SyntaxErrorKind::UnknownPrefixOperator
    );
    assert_eq!(
        resolve(PartExpression::InfixOperator {
            operator: "%".to_owned(),
            left: Box::new(number(1)),
            right: Box::new(number(2)),
            token: token_of("+"),
        }),
        SyntaxErrorKind::UnknownInfixOperator
    );
    assert_eq!(
        resolve(PartExpression::FunctionInvocation {
            val: Box::new(number(1)),
            arguments: Vec::new(),
            token: token_of("("),
        }),
        SyntaxErrorKind::CalleeNotIdentifier
    );
    assert_eq!(
        resolve(PartExpression::InfixOperator {
            operator: "+".to_owned(),
            left: Box::new(PartExpression::Empty),
            right: Box::new(number(2)),
            token: token_of("+"),
        }),
        SyntaxErrorKind::NotAnExpression
    );
}

#[test]
fn a_smaller_than_resolves_though_no_parser_builds_it() {
    let (variables, functions) = names();
    let tree = PartExpression::InfixOperator {
        operator: "<".to_owned(),
        left: Box::new(number(1)),
        right: Box::new(number(2)),
        token: token_of("<"),
    };
    let expression = actual_parse_expression(tree, &variables, &functions).unwrap();
    assert_eq!(text(&expression), "(1) < (2)");
    match expression {
        Expression::Math { math, .. } => assert_eq!(math, MathType::Smaller),
        _ => panic!("the expression is a comparison"),
    }
}

#[test]
fn an_expression_is_parsed_and_resolved() {
    let (variables, functions) = names();
    let mut queue = queue_of("f(x) + 1 2");
    let expression = parse_expression(&mut queue, &variables, &functions).unwrap();
    assert_eq!(text(&expression), "(f(x)) + (1)");
    assert_eq!(queue.pointer, 6);
    let mut queue = queue_of("f(y)");
    let error = parse_expression(&mut queue, &variables, &functions).unwrap_err();
    assert_eq!(error.kind, SyntaxErrorKind::VariableNotFound);
    let mut queue = queue_of("f(");
    assert!(parse_expression(&mut queue, &variables, &functions).is_err());
}

#[test]
fn a_program_has_variables_functions_and_expressions() {
    let ast = program("let a = 1\nconst b = a + 1\ndefine f(x, y) = x * y\ndefine cache g() = 7\nf(a, b)\ng()\n");
    assert_eq!(ast.variables.len(), 2);
    assert_eq!(variable(&ast, "a").constant, false);
    assert_eq!(variable(&ast, "b").constant, true);
    assert_eq!(text(&variable(&ast, "b").definition), "(a) + (1)");
    assert!(variable(&ast, "b").pre_definition.is_empty());
    assert_eq!(function(&ast, "f").parameters, vec!["x", "y"]);
    assert_eq!(function(&ast, "f").cached, false);
    assert_eq!(text(&function(&ast, "f").definition), "(x) * (y)");
    assert!(function(&ast, "f").pre_definition.is_empty());
    assert_eq!(function(&ast, "g").parameters.len(), 0);
    assert_eq!(function(&ast, "g").cached, true);
    let loose: Vec<String> = ast.loose_expressions.iter().map(text).collect();
    assert_eq!(loose, vec!["f(a, b)", "g()"]);
}

#[test]
fn the_functions_of_the_host_come_first() {
    let ast = program("define f() = 1\n");
    let names: Vec<&str> = ast.functions.iter().map(|f| f.name.as_str()).collect();
    assert_eq!(names, vec!["println", "if", "f"]);
    assert!(function(&ast, "println").definition.is_external());
    assert!(!function(&ast, "f").definition.is_external());
    assert_eq!(function(&ast, "println").parameters, vec!["p0"]);
    assert_eq!(function(&ast, "if").parameters, vec!["p0", "p1", "p2"]);
    assert_eq!(function(&ast, "if").cached, false);
}

#[test]
fn the_parameters_of_a_host_function_are_numbered() {
    let many = vec![ExternalRuntimeFunction::create("many", 12)];
    let ast = parse(scan(""), many).unwrap();
    assert_eq!(
        ast.functions[0].parameters,
        vec!["p0", "p1", "p2", "p3", "p4", "p5", "p6", "p7", "p8", "p9", "p10", "p11"]
    );
}

#[test]
fn a_name_may_be_used_before_it_is_declared() {
    let ast = program("let a = f(b)\ndefine f(x) = x + c\nlet b = 2\nconst c = 3\n");
    assert_eq!(text(&variable(&ast, "a").definition), "f(b)");
    assert_eq!(text(&function(&ast, "f").definition), "(x) + (c)");
    let ast = program("f(1)\ndefine f(x) = x\n");
    assert_eq!(text(&ast.loose_expressions[0]), "f(1)");
}

#[test]
fn a_function_may_call_itself_and_the_host() {
    let ast = program("define f(n) = if(n, f(n - 1), println(n))\n");
    assert_eq!(text(&function(&ast, "f").definition), "if(n, f((n) - (1)), println(n))");
}

#[test]
fn a_parameter_is_known_in_its_function_only() {
    assert_eq!(refused("define f(n) = n\nn\n").kind, SyntaxErrorKind::VariableNotFound);
    assert_eq!(
        refused("define f(n) = n\ndefine g(m) = n\n").kind,
        SyntaxErrorKind::VariableNotFound
    );
    assert_eq!(refused("define f(n) = n\nlet a = n\n").kind, SyntaxErrorKind::VariableNotFound);
}

#[test]
fn a_parameter_named_like_a_constant_is_not_assigned_to() {
    assert_eq!(
        refused("const c = 1\ndefine f(c) = c = 2\n").kind,
        SyntaxErrorKind::ConstantReassigned
    );
    let ast = program("let v = 1\ndefine f(v) = v = 2\n");
    assert_eq!(text(&function(&ast, "f").definition), "v = 2");
}

#[test]
fn a_declaration_goes_on_after_a_pipe() {
    let ast = program("let a = 1 + |\n 2 * |\n 3\na\n");
    assert_eq!(text(&variable(&ast, "a").definition), "(1) + ((2) * (3))");
    assert_eq!(ast.loose_expressions.len(), 1);
    let ast = program("define f(x, |\n y) = |\n x + y\nf(1, 2)\n");
    assert_eq!(function(&ast, "f").parameters, vec!["x", "y"]);
    assert_eq!(text(&function(&ast, "f").definition), "(x) + (y)");
    let ast = program("1 + |\n2\n3\n");
    let loose: Vec<String> = ast.loose_expressions.iter().map(text).collect();
    assert_eq!(loose, vec!["(1) + (2)", "3"]);
}

#[test]
fn lines_without_tokens_are_skipped() {
    let ast = program("\n# nothing\n   \n1\n\n|\n\n2\n");
    let loose: Vec<String> = ast.loose_expressions.iter().map(text).collect();
    assert_eq!(loose, vec!["1", "2"]);
    assert_eq!(program("").loose_expressions.len(), 0);
}

#[test]
fn a_declaration_needs_a_name() {
    let error = refused("let = 5\n");
    assert_eq!(error.kind, SyntaxErrorKind::ExpectedIdentifier);
    assert_eq!(error.token.unwrap().content(), "=");
    assert_eq!(refused("let 5 = 5\n").kind, SyntaxErrorKind::ExpectedIdentifier);
    assert_eq!(refused("define = 5\n").kind, SyntaxErrorKind::ExpectedIdentifier);
    assert_eq!(refused("define (x) = 5\n").kind, SyntaxErrorKind::ExpectedIdentifier);
    assert_eq!(refused("let where\n").kind, SyntaxErrorKind::ExpectedIdentifier);
    assert_eq!(refused("let cache a = 1\n").kind, SyntaxErrorKind::ExpectedIdentifier);
}

#[test]
fn a_declaration_has_one_name() {
    let error = refused("let a b = 5\n");
    assert_eq!(error.kind, SyntaxErrorKind::InvalidToken);
    assert_eq!(error.token.unwrap().content(), "b");
    assert_eq!(refused("define f g() = 5\n").kind, SyntaxErrorKind::InvalidToken);
}

#[test]
fn a_name_is_followed_by_its_definition() {
    let error = refused("let a 5\n");
    assert_eq!(error.kind, SyntaxErrorKind::ExpectedAssign);
    assert_eq!(error.token.unwrap().content(), "5");
    assert_eq!(refused("let a + 1\n").kind, SyntaxErrorKind::ExpectedAssign);
    assert_eq!(refused("let a (x) = 1\n").kind, SyntaxErrorKind::ExpectedAssign);
    assert_eq!(refused("define f where\n").kind, SyntaxErrorKind::ExpectedAssign);
    assert_eq!(refused("define f 1\n").kind, SyntaxErrorKind::ExpectedAssign);
}

#[test]
fn a_declaration_without_a_definition_is_refused() {
    assert_eq!(refused("let a\n").kind, SyntaxErrorKind::NotAnExpression);
    assert_eq!(refused("define f(x)\n").kind, SyntaxErrorKind::NotAnExpression);
    assert_eq!(refused("let a =\n").kind, SyntaxErrorKind::NothingToParse);
    assert_eq!(refused("define f() =\n").kind, SyntaxErrorKind::NothingToParse);
}

#[test]
fn guards_are_not_supported() {
    let error = refused("let a = 1 where a > 0\n");
    assert_eq!(error.kind, SyntaxErrorKind::GuardNotSupported);
    assert_eq!(error.token.unwrap().content(), "where");
    assert_eq!(refused("let a where a > 0\n").kind, SyntaxErrorKind::ExpectedDefinition);
}

#[test]
fn parameters_are_names_between_commas() {
    assert_eq!(refused("define f(1) = 1\n").kind, SyntaxErrorKind::IdentifierExpected);
    assert_eq!(refused("define f(a, 1) = 1\n").kind, SyntaxErrorKind::IdentifierExpected);
    assert_eq!(refused("define f(a,) = 1\n").kind, SyntaxErrorKind::IdentifierExpected);
    assert_eq!(refused("define f(a b) = 1\n").kind, SyntaxErrorKind::CloseOrCommaExpected);
    let error = refused("define f(a, ) = 1\n");
    assert_eq!(error.token.unwrap().content(), ")");
    let ast = program("define f = 1\ndefine g() = 2\nf()\n");
    assert_eq!(function(&ast, "f").parameters.len(), 0);
    assert_eq!(function(&ast, "g").parameters.len(), 0);
}

#[test]
fn the_mark_of_caching_stands_before_the_body() {
    assert!(function(&program("define cache f(x) = x\n"), "f").cached);
    assert!(function(&program("define f cache (x) = x\n"), "f").cached);
    assert!(function(&program("define f(x) cache = x\n"), "f").cached);
    assert!(!function(&program("define f(x) = x\n"), "f").cached);
    // after the body begins the mark is a token like any other
    assert!(!function(&program("define f(x) = x cache\n"), "f").cached);
    assert_eq!(refused("define f(x) = cache x\n").kind, SyntaxErrorKind::UnknownPrefix);
}

#[test]
fn the_first_error_in_the_text_is_reported() {
    let error = refused("let a = (\nlet b = )\n");
    assert_eq!(error.kind, SyntaxErrorKind::MissingClosingParenthesis);
    let error = refused("let a = y\nlet b = (\n");
    assert_eq!(error.kind, SyntaxErrorKind::MissingClosingParenthesis);
    let error = refused("z\ndefine f() = y\nlet a = x\n");
    assert_eq!(error.token.unwrap().content(), "x");
    let error = refused("z\ndefine f() = y\n");
    assert_eq!(error.token.unwrap().content(), "y");
}

#[test]
fn copies_of_declarations_are_the_same() {
    let ast = program("const a = 1\ndefine cache f(x) = x + a\nf(2)\n");
    let copy = ast.clone();
    assert_eq!(copy.variables.len(), 1);
    assert_eq!(copy.variables[0].name, "a");
    assert!(copy.variables[0].constant);
    assert_eq!(text(&copy.variables[0].definition), "1");
    let f = function(&copy, "f").clone();
    assert!(f.cached);
    assert_eq!(f.parameters, vec!["x"]);
    assert_eq!(text(&f.definition), "(x) + (a)");
    assert_eq!(text(&copy.loose_expressions[0]), "f(2)");
}

#[test]
fn expressions_are_compared_by_shape() {
    let ast = program("let a = 1\na + 2\na + 2\na + 3\n2 + a\nprintln(a)\nprintln(a)\nprintln(2)\na = 2\na = 2\n00\n0\n");
    let e = &ast.loose_expressions;
    assert!(e[0].equals(&e[1]));
    assert!(!e[0].equals(&e[2]));
    assert!(!e[0].equals(&e[3]));
    assert!(e[4].equals(&e[5]));
    assert!(!e[4].equals(&e[6]));
    assert!(e[7].equals(&e[8]));
    assert!(!e[7].equals(&e[0]));
    assert!(e[9].equals(&e[10]));
    assert!(Expression::Empty.equals(&Expression::Empty));
    assert!(!Expression::Empty.equals(&Expression::External));
    assert!(e[0].clone().equals(&e[0]));
    let x = Expression::VariableAccess { variable: "x".to_owned() };
    assert_eq!(x.variable_acess_variable(), "x");
}
