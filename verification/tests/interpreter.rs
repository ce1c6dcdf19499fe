use math_dsl::ast::Expression;
use math_dsl::ast::Function;
use math_dsl::ast::MathType;
use math_dsl::ast::Variable;
use math_dsl::ast::AST;
use math_dsl::error::RuntimeError;
use math_dsl::interpreter::interpret;
use math_dsl::interpreter::runtime::find_external;
use math_dsl::interpreter::runtime::find_runtime_function;
use math_dsl::interpreter::runtime::find_runtime_variable;
use math_dsl::interpreter::runtime::ExternalRuntimeFunction;
use math_dsl::interpreter::runtime::RuntimeAST;
use math_dsl::interpreter::runtime::RuntimeExpression;
use math_dsl::interpreter::runtime::RuntimeFunction;
use math_dsl::interpreter::runtime::RuntimeVariable;
use math_dsl::interpreter::runtime::Tuple;
use math_dsl::interpreter::ExternalHost;
use math_dsl::lexer::data;
use math_dsl::lexer::full_lex;
use math_dsl::lexer::token;
use math_dsl::number::Number;
use math_dsl::parser::expression::PartExpression;
use math_dsl::parser::parse;

const DEPTH: usize = 3000;

/// A host that prints into a list, chooses, counts, and stores a number.
struct Host {
    printed: Vec<String>,
    ticks: usize,
}

impl Host {
    fn new() -> Host {
        Host { printed: Vec::new(), ticks: 0 }
    }
}

fn externals() -> Vec<ExternalRuntimeFunction> {
    vec![
        ExternalRuntimeFunction::create("println", 1),
        ExternalRuntimeFunction::create("if", 3),
        ExternalRuntimeFunction::create("tick", 0),
        ExternalRuntimeFunction::create("store", 2),
    ]
}

impl ExternalHost for Host {
    fn invoke_external(
        &mut self,
        name: &str,
        args: Vec<RuntimeExpression>,
        ast: &mut RuntimeAST,
        depth: usize,
    ) -> Result<Number, RuntimeError> {
        match name {
            "println" => {
                let value = args[0].execute(ast, self, depth)?;
                self.printed.push(value.to_string());
                Ok(Number::from_i64(0))
            }
            "if" => {
                let condition = args[0].execute(ast, self, depth)?;
                if condition.equals(&Number::from_i64(1)) {
                    args[1].execute(ast, self, depth)
                } else {
                    args[2].execute(ast, self, depth)
                }
            }
            "tick" => {
                self.ticks += 1;
                Ok(Number::from_i64(self.ticks as i64))
            }
            "store" => {
                // store(variable*, value): assigns through the environment
                let value = args[1].execute(ast, self, depth)?;
                let target = ast.lookup_variable(args[0].pointer_to.as_ref().unwrap());
                ast.reassign_variable(target, value, depth)
            }
            _ => Err(RuntimeError::FunctionNotFound),
        }
    }
}

struct Run {
    runtime: RuntimeAST,
    host: Host,
    expressions: Vec<Expression>,
}

fn program_of(source: &str) -> AST {
    let kinds = data(vec![
        token("LET", "let", false),
        token("CONST", "const", false),
        token("DEFINE", "define", false),
        token("WHERE", "where", false),
        token("EXTERNAL", "external", false),
        token("CACHE", "cache", false),
        token("COMMA", ",", false),
        token("PIPE", "|", false),
        token("OPEN_PARENTHESIS", "(", false),
        token("CLOSE_PARENTHESIS", ")", false),
        token("EQUALS", "==", false),
        token("NOT_EQUALS", "=!", false),
        token("BIGGER_OR_EQUALS", ">=", false),
        token("BIGGER", ">", false),
        token("SMALLER_OR_EQUALS", "<=", false),
        token("SMALLER", "<", false),
        token("ASSIGN", "=", false),
        token("PLUS", "+", false),
        token("MINUS", "-", false),
        token("DIVIDE", "/", false),
        token("MULTIPLY", "*", false),
        token("POW", "^", false),
        token("NUMBER", "([0-9_]+)", true),
        token("WHITESPACE", "\\s+", true),
        token("IDENTIFIER", "[a-zA-Z][A-Za-z0-9_]*(\\*|)", true),
    ]);
    let tokens =
        full_lex(source.to_owned(), "test.math".to_owned(), "#".to_owned(), kinds).unwrap();
    parse(tokens, externals()).unwrap()
}

fn load(source: &str) -> Run {
    let ast = program_of(source);
    let expressions = ast.loose_expressions.clone();
    Run { runtime: RuntimeAST::create(ast, externals()), host: Host::new(), expressions }
}

impl Run {
    fn step_within(&mut self, i: usize, depth: usize) -> Result<String, RuntimeError> {
        RuntimeExpression::execute_expr(&self.expressions[i], &mut self.runtime, &mut self.host, depth)
            .map(|value| value.to_string())
    }

    fn step(&mut self, i: usize) -> Result<String, RuntimeError> {
        self.step_within(i, DEPTH)
    }

    fn all(&mut self) -> Result<Vec<String>, RuntimeError> {
        (0..self.expressions.len()).map(|i| self.step(i)).collect()
    }

    fn value_of(&mut self, name: &str) -> String {
        let variable = self.runtime.lookup_variable(name);
        variable.get_value(&mut self.runtime, &mut self.host, DEPTH).unwrap().to_string()
    }

    fn cache_of(&self, name: &str, arity: usize) -> Vec<(Vec<String>, String)> {
        self.runtime
            .lookup_function(name, arity)
            .cache
            .iter()
            .map(|entry| {
                (
                    entry.a.iter().map(|b| RuntimeExpression::expr_to_string(b.orig())).collect(),
                    entry.b.to_string(),
                )
            })
            .collect()
    }
}

fn values(source: &str) -> Vec<String> {
    load(source).all().unwrap()
}

fn failure(source: &str) -> RuntimeError {
    load(source).all().unwrap_err()
}

fn number(value: i64) -> Expression {
    Expression::NumberValue { value: Number::from_i64(value) }
}

fn plain(expression: Expression) -> RuntimeExpression {
    RuntimeExpression { orig: expression, is_pointer: false, pointer_to: None }
}

#[test]
fn a_program_runs_in_order() {
    let mut host = Host::new();
    let ast = program_of("let a = 1\nprintln(a)\na = (a + 1)\nprintln(a)\nprintln(a * 10)\n");
    assert_eq!(interpret(ast, externals(), &mut host, DEPTH), Ok(()));
    assert_eq!(host.printed, vec!["1", "2", "20"]);
}

#[test]
fn the_first_error_ends_the_run() {
    let mut host = Host::new();
    let ast = program_of("println(1)\nprintln(1 / 0)\nprintln(2)\n");
    assert_eq!((interpret(ast, externals(), &mut host, DEPTH)).err(), Some(RuntimeError::DivisionByZero));
    assert_eq!(host.printed, vec!["1"]);
}

#[test]
fn a_run_is_limited_in_depth() {
    let mut host = Host::new();
    let ast = program_of("println(1 + (2 * 3))\n");
    assert_eq!((interpret(ast, externals(), &mut host, 3)).err(), Some(RuntimeError::DepthExceeded));
    let ast = program_of("println(1 + (2 * 3))\n");
    assert_eq!((interpret(ast, externals(), &mut host, 0)).err(), Some(RuntimeError::DepthExceeded));
    let ast = program_of("");
    assert_eq!(interpret(ast, externals(), &mut host, 0), Ok(()));
}

#[test]
fn the_definition_of_a_variable_is_evaluated_at_each_access() {
    let mut run = load("let a = tick()\na\na\na + a\n");
    assert_eq!(run.all().unwrap(), vec!["1", "2", "7"]);
    assert_eq!(run.host.ticks, 4);
}

#[test]
fn an_assignment_fixes_the_value() {
    let mut run = load("let a = tick()\na = a\na\na\n");
    assert_eq!(run.all().unwrap(), vec!["1", "1", "1"]);
    assert_eq!(run.host.ticks, 1);
}

#[test]
fn an_assignment_is_a_value() {
    assert_eq!(values("let a = 0\n(a = 5) * 2\na\n"), vec!["10", "5"]);
    assert_eq!(values("let a = 0\nlet b = 0\na = b = 3\na\nb\n"), vec!["3", "3", "3"]);
}

#[test]
fn operands_are_evaluated_from_the_left() {
    let mut run = load("tick() - tick()\n(tick() * 10) + tick()\n");
    assert_eq!(run.all().unwrap(), vec!["-1", "34"]);
}

#[test]
fn the_host_decides_what_it_evaluates() {
    let mut run = load("if(1, 10, tick())\nif(0, tick(), 20)\nif(2, tick(), 30)\n");
    assert_eq!(run.all().unwrap(), vec!["10", "20", "30"]);
    assert_eq!(run.host.ticks, 0);
}

#[test]
fn a_function_binds_its_parameters_to_values() {
    assert_eq!(values("define f(a, b) = a - b\nf(10, 3)\nf(3, 10)\n"), vec!["7", "-7"]);
    let mut run = load("define twice(a) = a + a\ntwice(tick())\n");
    assert_eq!(run.all().unwrap(), vec!["2"]);
    assert_eq!(run.host.ticks, 1);
}

#[test]
fn functions_are_told_apart_by_their_parameters() {
    let source = "define f() = 0\ndefine f(a) = 1\ndefine f(a, b) = 2\nf()\nf(9)\nf(9, 9)\n";
    assert_eq!(values(source), vec!["0", "1", "2"]);
}

#[test]
fn the_first_of_two_functions_is_called() {
    assert_eq!(values("define f(a) = 1\ndefine f(b) = 2\nf(0)\n"), vec!["1"]);
}

#[test]
fn a_function_of_the_program_hides_one_of_the_host() {
    let mut run = load("define tick() = 100\ntick()\n");
    assert_eq!(run.all().unwrap(), vec!["100"]);
    assert_eq!(run.host.ticks, 0);
}

#[test]
fn a_function_sees_the_variables_of_the_program() {
    assert_eq!(values("let a = 4\ndefine f(x) = x * a\nf(3)\na = 5\nf(3)\n"), vec!["12", "5", "15"]);
}

#[test]
fn a_function_does_not_see_the_parameters_of_its_caller() {
    // `inner` resolves `x` to the variable of the program, and reads that one
    let source = "let x = 1\ndefine inner() = x\ndefine outer(y) = inner() + y\nouter(5)\n";
    assert_eq!(failure(source), RuntimeError::VariableNotFound);
    let source = "let x = 1\ndefine inner() = x\ndefine outer(y) = y + inner()\nouter(5)\n";
    assert_eq!(values(source), vec!["6"]);
}

#[test]
fn a_call_removes_every_parameter() {
    let mut run = load("define g(a) = a\ndefine f(n) = n + g(1)\nf(5)\n");
    assert_eq!(run.all().unwrap(), vec!["6"]);
    assert_eq!(run.runtime.get_variables().len(), 0);
    assert_eq!(failure("define g(a) = a\ndefine f(n) = g(1) + n\nf(5)\n"), RuntimeError::VariableNotFound);
}

#[test]
fn a_variable_of_the_program_hides_a_parameter_of_its_name() {
    assert_eq!(values("let a = 1\ndefine f(a) = a\nf(2)\n"), vec!["1"]);
}

#[test]
fn a_function_calls_itself() {
    let source = "define f(n) = if(1 > n, 0, n + f(n - 1))\nf(10)\nf(0)\n";
    assert_eq!(values(source), vec!["55", "0"]);
    let source = "define fact(n) = if(2 > n, 1, n * fact(n - 1))\nfact(25)\n";
    assert_eq!(values(source), vec!["15511210043330985984000000"]);
}

#[test]
fn a_reference_reaches_the_variable() {
    let source = "let a = 1\ndefine set(x, v) = x = v\nset(a*, 7)\na\nset(a, 9)\na\n";
    assert_eq!(values(source), vec!["7", "7", "9", "7"]);
}

#[test]
fn a_reference_is_read_through() {
    let source = "let a = 3\ndefine bump(x) = x = (x + x)\nbump(a*)\nbump(a*)\na\n";
    assert_eq!(values(source), vec!["6", "12", "12"]);
}

#[test]
fn a_reference_to_a_reference_ends_at_the_variable() {
    let source = "let a = 1\ndefine inner(y) = y = 7\ndefine outer(x) = inner(x*)\nouter(a*)\na\n";
    assert_eq!(values(source), vec!["7", "7"]);
}

#[test]
fn a_parameter_that_holds_a_value_is_not_referred_to() {
    let source = "define inner(y) = y\ndefine outer(x) = inner(x*)\nouter(1)\n";
    assert_eq!(failure(source), RuntimeError::DanglingReference);
    let source = "define inner(x) = x\ndefine outer(x) = inner(x*)\nouter(1)\n";
    assert_eq!(failure(source), RuntimeError::DanglingReference);
}

#[test]
fn a_reference_to_a_parameter_that_is_gone_is_refused() {
    let source = "define g(a) = a\ndefine h(r) = r\ndefine f(x) = g(1) + h(x*)\nf(2)\n";
    assert_eq!(failure(source), RuntimeError::VariableNotFound);
}

#[test]
fn a_reference_is_evaluated_where_a_value_is_needed() {
    assert_eq!(values("let a = 4\na* + 1\na*\n"), vec!["5", "4"]);
}

#[test]
fn the_host_is_handed_references_too() {
    let mut run = load("let a = 1\nstore(a*, 5 + 5)\na\n");
    assert_eq!(run.all().unwrap(), vec!["10", "10"]);
}

#[test]
fn a_constant_is_not_assigned_to_through_a_reference() {
    let source = "const c = 1\ndefine set(x) = x = 5\nset(c*)\n";
    let mut run = load(source);
    assert_eq!((run.all()).err(), Some(RuntimeError::ConstantReassigned));
    assert_eq!(run.value_of("c"), "1");
}

#[test]
fn a_cached_function_remembers_by_value() {
    let mut run = load("define cache f(n) = n + tick()\nf(2)\nf(1 + 1)\nf(3)\nf(2)\n");
    assert_eq!(run.all().unwrap(), vec!["3", "3", "5", "3"]);
    assert_eq!(run.host.ticks, 2);
    assert_eq!(
        run.cache_of("f", 1),
        vec![(vec!["2".to_owned()], "3".to_owned()), (vec!["3".to_owned()], "5".to_owned())]
    );
}

#[test]
fn a_function_without_cache_runs_each_time() {
    let mut run = load("define f(n) = n + tick()\nf(2)\nf(2)\n");
    assert_eq!(run.all().unwrap(), vec!["3", "4"]);
    assert_eq!(run.cache_of("f", 1).len(), 0);
}

#[test]
fn a_cached_function_remembers_the_calls_within() {
    let mut run = load("define cache f(n) = if(1 > n, tick(), n + f(n - 1))\nf(3)\nf(2)\nf(4)\n");
    assert_eq!(run.all().unwrap(), vec!["7", "4", "11"]);
    assert_eq!(run.host.ticks, 1);
    let keys: Vec<String> = run.cache_of("f", 1).into_iter().map(|e| e.0[0].clone()).collect();
    assert_eq!(keys, vec!["0", "1", "2", "3", "4"]);
}

#[test]
fn functions_that_call_each_other_remember_each_their_own() {
    let source = "define cache even(n) = if(1 > n, tick(), odd(n - 1))\n\
                  define cache odd(n) = if(1 > n, tick() * 100, even(n - 1))\n\
                  even(4)\nodd(3)\neven(2)\nodd(4)\n";
    let mut run = load(source);
    assert_eq!(run.step(0).unwrap(), "1");
    assert_eq!(run.host.ticks, 1);
    let keys = |run: &Run, name: &str| -> Vec<String> {
        run.cache_of(name, 1).into_iter().map(|e| e.0[0].clone()).collect()
    };
    assert_eq!(keys(&run, "even"), vec!["0", "2", "4"]);
    assert_eq!(keys(&run, "odd"), vec!["1", "3"]);
    // both remember what the first call went through
    assert_eq!(run.step(1).unwrap(), "1");
    assert_eq!(run.step(2).unwrap(), "1");
    assert_eq!(run.host.ticks, 1);
    // a call from the other end runs the bodies again
    assert_eq!(run.step(3).unwrap(), "200");
    assert_eq!(run.host.ticks, 2);
    assert_eq!(keys(&run, "odd"), vec!["1", "3", "0", "2", "4"]);
}

#[test]
fn functions_of_one_name_remember_each_their_own() {
    let source = "define cache f(a) = a + tick()\ndefine cache f(a, b) = a + b + tick()\nf(1)\nf(1, 1)\nf(1)\nf(1, 1)\n";
    let mut run = load(source);
    assert_eq!(run.all().unwrap(), vec!["2", "4", "2", "4"]);
    assert_eq!(run.cache_of("f", 1).len(), 1);
    assert_eq!(run.cache_of("f", 2).len(), 1);
}

#[test]
fn a_cached_function_without_parameters_runs_once() {
    let mut run = load("define cache f() = tick()\nf()\nf()\n");
    assert_eq!(run.all().unwrap(), vec!["1", "1"]);
}

#[test]
fn a_cached_function_refuses_a_reference_before_it_evaluates() {
    let mut run = load("let a = 1\ndefine cache f(x, y) = x\nf(tick(), a*)\n");
    assert_eq!((run.all()).err(), Some(RuntimeError::ReferenceInCachedCall));
    assert_eq!(run.host.ticks, 0);
}

#[test]
fn an_expression_without_assignment_changes_nothing() {
    let source = "let a = 4\nconst b = a * 2\ndefine f(x) = x * a + b\ndefine g(x) = f(x)\nf(a*) + g(b)\n";
    let mut run = load(source);
    let before = format!("{:?}", run.runtime);
    let first = run.step(0).unwrap();
    assert_eq!(first, "64");
    assert_eq!(format!("{:?}", run.runtime), before);
    let second = run.step(0).unwrap();
    assert_eq!(first, second);
    assert_eq!(format!("{:?}", run.runtime), before);
}

#[test]
fn an_expression_after_an_assignment_may_differ() {
    assert_eq!(values("let a = 1\na * 10\na = 2\na * 10\n"), vec!["10", "2", "20"]);
}

#[test]
fn a_deeper_limit_gives_the_same() {
    let source = "define f(n) = if(1 > n, 0, n + f(n - 1))\nf(20)\n";
    let shallow = load(source).step_within(0, 200).unwrap();
    let deep = load(source).step_within(0, 20000).unwrap();
    assert_eq!(shallow, "210");
    assert_eq!(deep, "210");
}

#[test]
fn an_evaluation_is_limited_in_depth() {
    assert_eq!((load("define f(n) = f(n)\nf(1)\n").step_within(0, 500)).err(), Some(RuntimeError::DepthExceeded));
    assert_eq!((load("let a = a\na\n").step_within(0, 500)).err(), Some(RuntimeError::DepthExceeded));
    assert_eq!((load("1\n").step_within(0, 0)).err(), Some(RuntimeError::DepthExceeded));
    assert_eq!(load("1\n").step_within(0, 1), Ok("1".to_owned()));
    assert_eq!((load("1 + 1\n").step_within(0, 2)).err(), Some(RuntimeError::DepthExceeded));
    assert_eq!(load("1 + 1\n").step_within(0, 3), Ok("2".to_owned()));
}

#[test]
fn a_reference_to_itself_is_limited_in_depth() {
    let mut run = load("let a = 1\n");
    run.runtime.variables[0].definition =
        RuntimeExpression { orig: Expression::Empty, is_pointer: true, pointer_to: Some("a".to_owned()) };
    let a = run.runtime.lookup_variable("a");
    assert_eq!((a.get_value(&mut run.runtime, &mut run.host, 100)).err(), Some(RuntimeError::DepthExceeded));
    let a = run.runtime.lookup_variable("a");
    assert_eq!((run.runtime.reassign_variable(a, Number::from_i64(1), 100)).err(), Some(RuntimeError::DepthExceeded));
}

#[test]
fn an_exponent_fits_in_32_bits() {
    assert_eq!(values("2 ^ 10\n2 ^ 0\n0 ^ 0\n(0 - 2) ^ 3\n"), vec!["1024", "1", "1", "-8"]);
    assert_eq!(failure("2 ^ (0 - 1)\n"), RuntimeError::ExponentOutOfRange);
    assert_eq!(failure("2 ^ -1\n"), RuntimeError::ExponentOutOfRange);
    assert_eq!(failure("1 ^ 4294967296\n"), RuntimeError::ExponentOutOfRange);
    assert_eq!(values("1 ^ 4294967295\n"), vec!["1"]);
}

#[test]
fn numbers_have_no_limit() {
    assert_eq!(values("2 ^ 200\n"), vec!["1606938044258990275541962092341162602522202993782792835301376"]);
    assert_eq!(
        values("99999999999999999999 * 99999999999999999999\n"),
        vec!["9999999999999999999800000000000000000001"]
    );
    assert_eq!(values("0 - 99999999999999999999 / 10\n"), vec!["-9999999999999999999"]);
}

#[test]
fn what_is_no_expression_is_not_executed() {
    let mut run = load("");
    let mut execute = |expression: Expression| {
        RuntimeExpression::execute_expr(&expression, &mut run.runtime, &mut run.host, DEPTH)
    };
    assert_eq!((execute(Expression::Empty)).err(), Some(RuntimeError::NotExecutable));
    assert_eq!((execute(Expression::External)).err(), Some(RuntimeError::NotExecutable));
    assert_eq!((execute(Expression::VariableAccess { variable: "nowhere".to_owned() })).err(), Some(RuntimeError::VariableNotFound));
    assert_eq!((execute(Expression::Pointer { to: "nowhere".to_owned() })).err(), Some(RuntimeError::VariableNotFound));
    assert_eq!((execute(Expression::VariableAssignment {
            variable: "nowhere".to_owned(),
            value: Box::new(number(1)),
        })).err(), Some(RuntimeError::VariableNotFound));
    assert_eq!((execute(Expression::FunctionInvocation { function: "nowhere".to_owned(), arguments: vec![] })).err(), Some(RuntimeError::FunctionNotFound));
    assert_eq!((execute(Expression::FunctionInvocation { function: "tick".to_owned(), arguments: vec![number(1)] })).err(), Some(RuntimeError::FunctionNotFound));
    assert_eq!((execute(Expression::Math {
            var1: Box::new(Expression::Empty),
            var2: Box::new(number(1)),
            math: MathType::Add,
        })).err(), Some(RuntimeError::NotExecutable));
}

#[test]
fn a_reference_to_nothing_dangles() {
    let mut run = load("let a = 1\ndefine f(x) = x\n");
    let nothing = RuntimeExpression { orig: Expression::Empty, is_pointer: true, pointer_to: None };
    assert_eq!((nothing.execute(&mut run.runtime, &mut run.host, DEPTH)).err(), Some(RuntimeError::DanglingReference));
    assert_eq!((run.runtime.invoke_function("f", vec![nothing.clone()], &mut run.host, DEPTH)).err(), Some(RuntimeError::DanglingReference));
    run.runtime.variables[0].definition = nothing;
    let a = run.runtime.lookup_variable("a");
    assert_eq!((run.runtime.reassign_variable(a, Number::from_i64(1), DEPTH)).err(), Some(RuntimeError::DanglingReference));
}

#[test]
fn a_binding_stands_for_an_expression() {
    let run = load("let a = 1\n");
    let empty = RuntimeExpression::empty();
    assert!(empty.orig().equals(&Expression::Empty));
    assert!(!empty.is_pointer);
    assert!(empty.pointer_to.is_none());
    let value = RuntimeExpression::from(number(5), &run.runtime);
    assert!(value.orig().equals(&number(5)));
    assert!(!value.is_pointer);
    let reference = RuntimeExpression::from(Expression::Pointer { to: "a".to_owned() }, &run.runtime);
    assert!(reference.is_pointer);
    assert_eq!(reference.pointer_to, Some("a".to_owned()));
    assert!(reference.orig().equals(&Expression::Pointer { to: "a".to_owned() }));
    let unknown = RuntimeExpression::from(Expression::Pointer { to: "b".to_owned() }, &run.runtime);
    assert_eq!(unknown.pointer_to, Some("b".to_owned()));
}

#[test]
fn bindings_are_compared_by_shape() {
    let a = plain(number(1));
    let b = plain(Expression::NumberValue { value: Number::parse("01").unwrap() });
    let c = plain(number(2));
    let to_x = RuntimeExpression { orig: Expression::Empty, is_pointer: true, pointer_to: Some("x".to_owned()) };
    let to_y = RuntimeExpression { orig: Expression::Empty, is_pointer: true, pointer_to: Some("y".to_owned()) };
    let odd = RuntimeExpression { orig: number(1), is_pointer: true, pointer_to: None };
    assert!(a.equals(&b));
    assert!(!a.equals(&c));
    assert!(to_x.equals(&to_x.clone()));
    assert!(!to_x.equals(&to_y));
    assert!(!a.equals(&odd));
    assert!(!to_x.equals(&RuntimeExpression::empty()));
    assert!(RuntimeExpression::empty().equals(&RuntimeExpression::empty()));
}

#[test]
fn operands_are_evaluated_and_joined() {
    let mut run = load("let a = 6\n");
    let a = RuntimeExpression::from(Expression::VariableAccess { variable: "a".to_owned() }, &run.runtime);
    let three = plain(number(3));
    let result = RuntimeExpression::run_math(
        MathType::Divide,
        a.clone(),
        three.clone(),
        &mut run.runtime,
        &mut run.host,
        DEPTH,
    );
    assert_eq!(result.unwrap().to_string(), "2");
    let zero = plain(number(0));
    let result =
        RuntimeExpression::run_math(MathType::Divide, a, zero, &mut run.runtime, &mut run.host, DEPTH);
    assert_eq!((result).err(), Some(RuntimeError::DivisionByZero));
    let missing = plain(Expression::VariableAccess { variable: "b".to_owned() });
    let result = RuntimeExpression::run_math(
        MathType::Add,
        missing,
        plain(Expression::Empty),
        &mut run.runtime,
        &mut run.host,
        DEPTH,
    );
    assert_eq!((result).err(), Some(RuntimeError::VariableNotFound));
}

#[test]
fn an_expression_is_written_as_text() {
    let show = |expression: Expression| RuntimeExpression::expr_to_string(&expression);
    assert_eq!(show(Expression::Empty), "none");
    assert_eq!(show(Expression::External), "external");
    assert_eq!(show(number(-12)), "-12");
    assert_eq!(show(Expression::VariableAccess { variable: "abc".to_owned() }), "abc");
    assert_eq!(show(Expression::Pointer { to: "abc".to_owned() }), "*abc");
    assert_eq!(
        show(Expression::Math { var1: Box::new(number(1)), var2: Box::new(number(2)), math: MathType::Smaller }),
        "(1) < (2)"
    );
    assert_eq!(
        show(Expression::VariableAssignment { variable: "a".to_owned(), value: Box::new(number(2)) }),
        "a = 2"
    );
    let call = |arguments: Vec<Expression>| {
        show(Expression::FunctionInvocation { function: "f".to_owned(), arguments })
    };
    assert_eq!(call(vec![]), "f()");
    assert_eq!(call(vec![number(1)]), "f(1)");
    assert_eq!(call(vec![number(1), Expression::Empty, number(3)]), "f(1, none, 3)");
}

#[test]
fn the_environment_starts_with_the_program() {
    let run = load("let a = 1\nconst b = 2\ndefine f(x) = x\ndefine cache g() = 1\n");
    let variables = run.runtime.get_variables();
    assert_eq!(variables.len(), 2);
    assert_eq!(variables[0].name, "a");
    assert!(!variables[0].constant);
    assert!(!variables[0].function_argument);
    assert!(!variables[0].definition.is_pointer);
    assert_eq!(variables[1].name, "b");
    assert!(variables[1].constant);
    let functions = run.runtime.get_functions();
    let names: Vec<&str> = functions.iter().map(|f| f.name.as_str()).collect();
    assert_eq!(names, vec!["f", "g"]);
    assert!(!functions[0].cached);
    assert!(functions[1].cached);
    assert_eq!(functions[0].parameters, vec!["x"]);
    assert_eq!(functions[1].cache.len(), 0);
    assert_eq!(run.runtime.external_functions.len(), 4);
    assert_eq!(run.runtime.external_functions[1].name(), "if");
    assert_eq!(*run.runtime.external_functions[1].parameters(), 3);
}

#[test]
fn variables_and_functions_are_looked_up() {
    let run = load("let a = 1\nlet b = 2\ndefine f(x) = x\ndefine f() = 1\n");
    assert_eq!(find_runtime_variable(&run.runtime.variables, "b"), Some(1));
    assert_eq!(find_runtime_variable(&run.runtime.variables, "c"), None);
    assert_eq!(find_runtime_function(&run.runtime.functions, "f", 0), Some(1));
    assert_eq!(find_runtime_function(&run.runtime.functions, "f", 1), Some(0));
    assert_eq!(find_runtime_function(&run.runtime.functions, "f", 2), None);
    assert_eq!(find_external(&run.runtime.external_functions, "if", 3), Some(1));
    assert_eq!(find_external(&run.runtime.external_functions, "if", 2), None);
    assert!(run.runtime.variable_exists("a"));
    assert!(!run.runtime.variable_exists("f"));
    assert!(run.runtime.function_exists("f", 1));
    assert!(!run.runtime.function_exists("f", 3));
    assert!(!run.runtime.function_exists("if", 3));
    assert!(run.runtime.external_function_exists("if", 3));
    assert!(!run.runtime.external_function_exists("if", 1));
    assert!(!run.runtime.external_function_exists("f", 1));
    assert_eq!(run.runtime.lookup_variable("b").name, "b");
    assert_eq!(run.runtime.lookup_function("f", 0).parameters.len(), 0);
    assert_eq!(run.runtime.lookup_function("f", 1).parameters, vec!["x"]);
    let external = run.runtime.lookup_external_function("store", 2);
    assert_eq!(external.name(), "store");
    assert_eq!(*external.parameters(), 2);
}

#[test]
fn variables_are_deleted_by_name() {
    let mut run = load("let a = 1\nlet b = 2\nlet c = 3\n");
    run.runtime.delete_variable("b");
    let names: Vec<&str> = run.runtime.variables.iter().map(|v| v.name.as_str()).collect();
    assert_eq!(names, vec!["a", "c"]);
    run.runtime.delete_variable("b");
    assert_eq!(run.runtime.variables.len(), 2);
}

#[test]
fn functions_are_deleted_by_name_or_number_of_parameters() {
    let mut run = load("define f(x) = 1\ndefine g(x) = 2\ndefine g(x, y) = 3\ndefine h() = 4\ndefine k(x, y, z) = 5\n");
    run.runtime.delete_function("g", 0);
    let left: Vec<(String, usize)> =
        run.runtime.functions.iter().map(|f| (f.name.clone(), f.parameters.len())).collect();
    assert_eq!(left, vec![("f".to_owned(), 1), ("k".to_owned(), 3)]);
    run.runtime.delete_function("nothing", 1);
    let left: Vec<&str> = run.runtime.functions.iter().map(|f| f.name.as_str()).collect();
    assert_eq!(left, vec!["k"]);
}

#[test]
fn a_variable_is_reassigned_by_name() {
    let mut run = load("let a = 1 + 1\nconst c = 1\n");
    let a = run.runtime.lookup_variable("a");
    let result = run.runtime.reassign_variable(a, Number::from_i64(9), DEPTH);
    assert_eq!(result.unwrap().to_string(), "9");
    assert_eq!(RuntimeExpression::expr_to_string(run.runtime.variables[0].definition.orig()), "9");
    let c = run.runtime.lookup_variable("c");
    assert_eq!((run.runtime.reassign_variable(c, Number::from_i64(9), DEPTH)).err(), Some(RuntimeError::ConstantReassigned));
    let unknown = RuntimeVariable {
        name: "z".to_owned(),
        definition: RuntimeExpression::empty(),
        function_argument: false,
        constant: false,
    };
    assert_eq!((run.runtime.reassign_variable(unknown, Number::from_i64(9), DEPTH)).err(), Some(RuntimeError::VariableNotFound));
    assert_eq!(run.value_of("a"), "9");
    assert_eq!(run.value_of("c"), "1");
}

fn shape_of(runtime: &RuntimeAST) -> Vec<(String, bool, bool, String)> {
    runtime
        .variables
        .iter()
        .map(|v| {
            let bound = match &v.definition.pointer_to {
                Some(target) => format!("*{}", target),
                None => RuntimeExpression::expr_to_string(v.definition.orig()),
            };
            (v.name.clone(), v.function_argument, v.definition.is_pointer, bound)
        })
        .collect()
}

fn shaped(name: &str, parameter: bool, reference: bool, bound: &str) -> (String, bool, bool, String) {
    (name.to_owned(), parameter, reference, bound.to_owned())
}

#[test]
fn the_body_of_a_function_runs_among_its_parameters() {
    let mut run = load("let a = 1\ndefine f(x, y, z) = x\n");
    let f = run.runtime.lookup_function("f", 3);
    let mut inside = run.runtime.clone();
    inside.variables.push(RuntimeVariable {
        name: "left".to_owned(),
        definition: plain(number(4)),
        function_argument: true,
        constant: false,
    });
    // a sum that reads a parameter of the caller, a call of the host, a reference
    let sum = Expression::Math {
        var1: Box::new(Expression::VariableAccess { variable: "left".to_owned() }),
        var2: Box::new(number(3)),
        math: MathType::Add,
    };
    let tick = Expression::FunctionInvocation { function: "tick".to_owned(), arguments: vec![] };
    let args = vec![
        plain(sum),
        plain(tick),
        RuntimeExpression::from(Expression::Pointer { to: "a".to_owned() }, &inside),
    ];
    let entered = RuntimeAST::function_ast(inside, f, args, &mut run.host, DEPTH)
        .ok()
        .expect("the arguments have values");
    assert_eq!(
        shape_of(&entered),
        vec![
            shaped("a", false, false, "1"),
            shaped("x", true, false, "7"),
            shaped("y", true, false, "1"),
            shaped("z", true, true, "*a"),
        ]
    );
    assert_eq!(run.host.ticks, 1);
    assert_eq!(entered.functions.len(), 1);
    assert_eq!(entered.external_functions.len(), 4);
}

#[test]
fn an_argument_that_fails_enters_no_function() {
    let mut run = load("let a = 1\ndefine f(x) = x\n");
    let f = run.runtime.lookup_function("f", 1);
    let zero = Expression::Math {
        var1: Box::new(number(1)),
        var2: Box::new(number(0)),
        math: MathType::Divide,
    };
    let inside = run.runtime.clone();
    let failed = RuntimeAST::function_ast(inside, f, vec![plain(zero)], &mut run.host, DEPTH);
    assert_eq!(failed.err(), Some(RuntimeError::DivisionByZero));
    let f = run.runtime.lookup_function("f", 1);
    let inside = run.runtime.clone();
    let shallow = RuntimeAST::function_ast(inside, f, vec![plain(number(1))], &mut run.host, 0);
    assert_eq!(shallow.err(), Some(RuntimeError::DepthExceeded));
}

#[test]
fn arguments_are_bound_from_the_left() {
    let mut run = load("let a = 1\n");
    let tick = || plain(Expression::FunctionInvocation { function: "tick".to_owned(), arguments: vec![] });
    let args = vec![tick(), tick(), plain(number(9))];
    let bindings = run.runtime.bind_arguments(&args, &mut run.host, DEPTH).ok().unwrap();
    let texts: Vec<String> =
        bindings.iter().map(|b| RuntimeExpression::expr_to_string(b.orig())).collect();
    assert_eq!(texts, vec!["1", "2", "9"]);
    assert_eq!(run.host.ticks, 2);
}

#[test]
fn a_refusal_of_a_reference_changes_nothing() {
    let mut run = load("let a = 1\ndefine cache f(x, y) = x\na = 2\n");
    run.step(0).unwrap();
    let before = format!("{:?}", run.runtime);
    let f = run.runtime.lookup_function("f", 2);
    let reference = RuntimeExpression::from(Expression::Pointer { to: "a".to_owned() }, &run.runtime);
    let tick = plain(Expression::FunctionInvocation { function: "tick".to_owned(), arguments: vec![] });
    let refused = f.invoke(vec![tick, reference], &mut run.runtime, &mut run.host, DEPTH);
    assert_eq!(refused.err(), Some(RuntimeError::ReferenceInCachedCall));
    assert_eq!(format!("{:?}", run.runtime), before);
    assert_eq!(run.host.ticks, 0);
}

#[test]
fn a_function_is_invoked_on_its_own() {
    let mut run = load("let a = 10\ndefine f(x) = x + a\ndefine cache g(x) = x * tick()\n");
    let f = run.runtime.lookup_function("f", 1);
    let result = f.invoke(vec![plain(number(5))], &mut run.runtime, &mut run.host, DEPTH);
    assert_eq!(result.unwrap().to_string(), "15");
    let g = run.runtime.lookup_function("g", 1);
    let first = g.invoke(vec![plain(number(5))], &mut run.runtime, &mut run.host, DEPTH);
    let second = g.invoke(vec![plain(number(5))], &mut run.runtime, &mut run.host, DEPTH);
    assert_eq!(first.unwrap().to_string(), "5");
    assert_eq!(second.unwrap().to_string(), "5");
    assert_eq!(run.cache_of("g", 1).len(), 1);
    let result = run.runtime.invoke_function("f", vec![plain(number(1))], &mut run.host, DEPTH);
    assert_eq!(result.unwrap().to_string(), "11");
    let result = run.runtime.invoke_function("tick", vec![], &mut run.host, DEPTH);
    assert_eq!(result.unwrap().to_string(), "2");
    let result = run.runtime.invoke_function("f", vec![], &mut run.host, DEPTH);
    assert_eq!((result).err(), Some(RuntimeError::FunctionNotFound));
}

#[test]
fn a_function_that_is_gone_remembers_nothing() {
    let mut run = load("define cache g(x) = x\n");
    let g = run.runtime.lookup_function("g", 1);
    run.runtime.delete_function("g", 9);
    let result = g.invoke(vec![plain(number(5))], &mut run.runtime, &mut run.host, DEPTH);
    assert_eq!(result.unwrap().to_string(), "5");
    assert_eq!(run.runtime.functions.len(), 0);
}

fn declared(name: &str, definition: Expression, constant: bool) -> Variable {
    Variable {
        name: name.to_owned(),
        definition,
        wherepart: Vec::new(),
        pre_definition: PartExpression::Empty,
        pre_wherepart: Vec::new(),
        constant,
    }
}

#[test]
fn declarations_become_parts_of_the_environment() {
    let run = load("let a = 1\n");
    let raw = RuntimeVariable::from_raw(declared("v", Expression::Pointer { to: "a".to_owned() }, true));
    assert_eq!(raw.name, "v");
    assert!(raw.constant);
    assert!(!raw.function_argument);
    assert!(!raw.definition.is_pointer);
    assert!(raw.definition.pointer_to.is_none());
    let bound = RuntimeVariable::from(
        declared("v", Expression::Pointer { to: "a".to_owned() }, false),
        &run.runtime,
    );
    assert!(bound.definition.is_pointer);
    assert_eq!(bound.definition.pointer_to, Some("a".to_owned()));
    assert!(!bound.constant);
    let function = RuntimeFunction::from(Function {
        name: "f".to_owned(),
        definition: number(3),
        parameters: vec!["x".to_owned()],
        pre_definition: PartExpression::Empty,
        cached: true,
    });
    assert_eq!(function.name, "f");
    assert!(function.cached);
    assert_eq!(function.parameters, vec!["x"]);
    assert_eq!(function.cache.len(), 0);
    assert!(function.definition.orig().equals(&number(3)));
    assert!(!function.definition.is_pointer);
}

#[test]
fn copies_of_the_environment_are_the_same() {
    let mut run = load("let a = 1\ndefine cache f(x) = x + a\nf(1)\nf(2)\n");
    run.all().unwrap();
    let copy = run.runtime.clone();
    assert_eq!(format!("{:?}", copy), format!("{:?}", run.runtime));
    let pair = Tuple { a: 1, b: "one" };
    assert_eq!(pair.a, 1);
    assert_eq!(pair.b, "one");
}
