//! What an evaluation comes to.
//!
//! [`eval`] and the functions beside it say what an expression evaluates to
//! and what it leaves of the environment, as far as no function of the host
//! is called. Every nested evaluation uses up one level of the depth that
//! the caller allows.

use crate::ast::AstView;
use crate::ast::ExpressionView;
use crate::ast::FunctionView;
use crate::ast::MathType;
use crate::ast::VariableView;
use crate::error::RuntimeError;
use crate::interpreter::runtime::function_index;
use crate::interpreter::runtime::has_external;
use crate::interpreter::runtime::variable_index;
use crate::interpreter::runtime::CacheEntryView;
use crate::interpreter::runtime::ExternalFunctionView;
use crate::interpreter::runtime::RuntimeExpressionView;
use crate::interpreter::runtime::RuntimeFunctionView;
use crate::interpreter::runtime::RuntimeVariableView;
use crate::interpreter::runtime::RuntimeView;
use crate::interpreter::runtime::Tuple;
use crate::number::decimal_text;
use crate::number::power;
use crate::number::truncated_quotient;
use vstd::prelude::*;

verus! {

/// One for true, zero for false.
pub open spec fn truth(b: bool) -> int {
    if b {
        1
    } else {
        0
    }
}

/// What the operator `math` makes of `a` and `b`.
pub open spec fn apply(math: MathType, a: int, b: int) -> Result<int, RuntimeError> {
    match math {
        MathType::Add => Ok(a + b),
        MathType::Subtract => Ok(a - b),
        MathType::Multiply => Ok(a * b),
        MathType::Divide => if b == 0 {
            Err(RuntimeError::DivisionByZero)
        } else {
            Ok(truncated_quotient(a, b))
        },
        MathType::Equals => Ok(truth(a == b)),
        MathType::NotEquals => Ok(truth(a != b)),
        MathType::BiggerOrEquals => Ok(truth(a >= b)),
        MathType::Bigger => Ok(truth(a > b)),
        MathType::SmallerOrEquals => Ok(truth(a <= b)),
        MathType::Smaller => Ok(truth(a < b)),
        MathType::Pow => if 0 <= b <= u32::MAX {
            Ok(power(a, b as nat))
        } else {
            Err(RuntimeError::ExponentOutOfRange)
        },
    }
}

/// The binding of a variable to the value `value`.
pub open spec fn value_binding(value: int) -> RuntimeExpressionView {
    RuntimeExpressionView {
        orig: ExpressionView::NumberValue { value },
        is_pointer: false,
        pointer_to: None,
    }
}

/// The binding of a variable to the variable named `target`.
pub open spec fn reference_binding(target: Seq<char>) -> RuntimeExpressionView {
    RuntimeExpressionView { orig: ExpressionView::Empty, is_pointer: true, pointer_to: Some(target) }
}

/// The binding of a variable to the expression `expression` as it stands.
pub open spec fn plain_binding(expression: ExpressionView) -> RuntimeExpressionView {
    RuntimeExpressionView { orig: expression, is_pointer: false, pointer_to: None }
}

/// The binding that stands for the expression `expression`: a reference where
/// the expression is one, the expression itself otherwise.
pub open spec fn wrap(expression: ExpressionView) -> RuntimeExpressionView {
    match expression {
        ExpressionView::Pointer { to } => RuntimeExpressionView {
            orig: expression,
            is_pointer: true,
            pointer_to: Some(to),
        },
        _ => RuntimeExpressionView { orig: expression, is_pointer: false, pointer_to: None },
    }
}

/// The bindings that stand for the expressions `list`.
pub open spec fn wrap_all(list: Seq<ExpressionView>) -> Seq<RuntimeExpressionView> {
    list.map_values(|e: ExpressionView| wrap(e))
}

/// What a parameter is bound to that is handed a reference to the variable
/// `to`: the variable that `to` is itself bound to, where it is bound to
/// one, and else `to`. A parameter that is bound to a value cannot be
/// referred to: it is gone when the function that is called runs.
pub open spec fn reference_to(variables: Seq<RuntimeVariableView>, to: Seq<char>) -> Result<
    RuntimeExpressionView,
    RuntimeError,
> {
    match variable_index(variables, to) {
        None => Err(RuntimeError::VariableNotFound),
        Some(i) => if variables[i].definition.is_pointer {
            match variables[i].definition.pointer_to {
                Some(target) => Ok(reference_binding(target)),
                None => Err(RuntimeError::DanglingReference),
            }
        } else if variables[i].function_argument {
            Err(RuntimeError::DanglingReference)
        } else {
            Ok(reference_binding(to))
        },
    }
}

/// The variables among `variables` that are no parameters.
pub open spec fn without_parameters(variables: Seq<RuntimeVariableView>) -> Seq<RuntimeVariableView> {
    variables.filter(|v: RuntimeVariableView| !v.function_argument)
}

/// The parameters `parameters` as variables bound to `bindings`.
pub open spec fn parameter_variables(
    parameters: Seq<Seq<char>>,
    bindings: Seq<RuntimeExpressionView>,
) -> Seq<RuntimeVariableView> {
    Seq::new(
        parameters.len(),
        |i: int|
            RuntimeVariableView {
                name: parameters[i],
                definition: bindings[i],
                function_argument: true,
                constant: false,
            },
    )
}

/// The environment in which the body of a function runs: the variables of
/// `env` that are no parameters, and the function's own parameters.
pub open spec fn enter(
    env: RuntimeView,
    parameters: Seq<Seq<char>>,
    bindings: Seq<RuntimeExpressionView>,
) -> RuntimeView {
    RuntimeView {
        variables: without_parameters(env.variables) + parameter_variables(parameters, bindings),
        ..env
    }
}

/// The environment that a function leaves behind: `env` without parameters.
pub open spec fn leave(env: RuntimeView) -> RuntimeView {
    RuntimeView { variables: without_parameters(env.variables), ..env }
}

/// The result that `cache` holds for the bindings `key`: that of the first
/// entry with these bindings.
#[verifier::opaque]
pub open spec fn cache_lookup(cache: Seq<CacheEntryView>, key: Seq<RuntimeExpressionView>) -> Option<int> {
    if exists|i: int| 0 <= i < cache.len() && (#[trigger] cache[i]).a == key {
        Some(
            cache[choose|i: int|
                0 <= i < cache.len() && (#[trigger] cache[i]).a == key && forall|j: int|
                    0 <= j < i ==> (#[trigger] cache[j]).a != key].b,
        )
    } else {
        None
    }
}

/// The result that the function named `name` with `arity` parameters
/// remembers for the bindings `key`.
pub open spec fn cached_result(
    functions: Seq<RuntimeFunctionView>,
    name: Seq<char>,
    arity: nat,
    key: Seq<RuntimeExpressionView>,
) -> Option<int> {
    match function_index(functions, name, arity) {
        Some(i) => cache_lookup(functions[i].cache, key),
        None => None,
    }
}

/// The environment `env` after the function named `name` with `arity`
/// parameters has noted the result `result` for the bindings `key`.
pub open spec fn remember(
    env: RuntimeView,
    name: Seq<char>,
    arity: nat,
    key: Seq<RuntimeExpressionView>,
    result: int,
) -> RuntimeView {
    match function_index(env.functions, name, arity) {
        Some(i) => RuntimeView {
            functions: env.functions.update(
                i,
                RuntimeFunctionView {
                    cache: env.functions[i].cache.push(Tuple { a: key, b: result }),
                    ..env.functions[i]
                },
            ),
            ..env
        },
        None => env,
    }
}

/// Whether one of the bindings `args` is a reference.
#[verifier::opaque]
pub open spec fn has_reference(args: Seq<RuntimeExpressionView>) -> bool {
    exists|i: int| 0 <= i < args.len() && (#[trigger] args[i]).is_pointer
}

/// The environment `env` after `value` is assigned to the variable named
/// `name`. An assignment to a variable that is bound to another variable goes
/// to that one; `depth` bounds how many such steps are followed.
pub open spec fn assign(name: Seq<char>, value: int, env: RuntimeView, depth: nat) -> Result<
    RuntimeView,
    RuntimeError,
>
    decreases depth,
{
    match variable_index(env.variables, name) {
        None => Err(RuntimeError::VariableNotFound),
        Some(i) => {
            let variable = env.variables[i];
            if variable.definition.is_pointer {
                match variable.definition.pointer_to {
                    None => Err(RuntimeError::DanglingReference),
                    Some(target) => if depth == 0 {
                        Err(RuntimeError::DepthExceeded)
                    } else {
                        assign(target, value, env, (depth - 1) as nat)
                    },
                }
            } else if variable.constant {
                Err(RuntimeError::ConstantReassigned)
            } else {
                Ok(
                    RuntimeView {
                        variables: env.variables.update(
                            i,
                            RuntimeVariableView { definition: value_binding(value), ..variable },
                        ),
                        ..env
                    },
                )
            }
        },
    }
}

/// What an evaluation comes to: a value and the environment that it leaves,
/// or the error that ended it. `None` where a function of the host was
/// called, of which nothing is known.
pub type Outcome = Option<Result<(int, RuntimeView), RuntimeError>>;

/// What a run of evaluations comes to: bindings and the environment that
/// they leave.
pub type Bound = Option<Result<(Seq<RuntimeExpressionView>, RuntimeView), RuntimeError>>;

/// What the expression `expression` evaluates to in `env`, within `depth`
/// nested evaluations.
pub open spec fn eval(expression: ExpressionView, env: RuntimeView, depth: nat) -> Outcome
    decreases depth, 0int, 0int,
{
    if depth == 0 {
        Some(Err(RuntimeError::DepthExceeded))
    } else {
        let rest = (depth - 1) as nat;
        match expression {
            ExpressionView::NumberValue { value } => Some(Ok((value, env))),
            ExpressionView::VariableAccess { variable } => match variable_index(
                env.variables,
                variable,
            ) {
                None => Some(Err(RuntimeError::VariableNotFound)),
                Some(i) => eval_runtime(env.variables[i].definition, env, rest),
            },
            ExpressionView::Pointer { to } => eval_runtime(wrap(expression), env, rest),
            ExpressionView::Math { var1, var2, math } => match eval_runtime(wrap(*var1), env, rest) {
                None => None,
                Some(Err(e)) => Some(Err(e)),
                Some(Ok((a, env1))) => match eval_runtime(wrap(*var2), env1, rest) {
                    None => None,
                    Some(Err(e)) => Some(Err(e)),
                    Some(Ok((b, env2))) => match apply(math, a, b) {
                        Err(e) => Some(Err(e)),
                        Ok(value) => Some(Ok((value, env2))),
                    },
                },
            },
            ExpressionView::FunctionInvocation { function, arguments } => call(
                function,
                wrap_all(arguments),
                env,
                rest,
            ),
            ExpressionView::VariableAssignment { variable, value } => match eval_runtime(
                wrap(*value),
                env,
                rest,
            ) {
                None => None,
                Some(Err(e)) => Some(Err(e)),
                Some(Ok((v, env1))) => match assign(variable, v, env1, rest) {
                    Err(e) => Some(Err(e)),
                    Ok(env2) => Some(Ok((v, env2))),
                },
            },
            ExpressionView::Empty | ExpressionView::External => Some(
                Err(RuntimeError::NotExecutable),
            ),
        }
    }
}

/// What the binding `binding` evaluates to in `env`, within `depth` nested
/// evaluations: the value of the variable that it refers to, or that of its
/// expression.
pub open spec fn eval_runtime(binding: RuntimeExpressionView, env: RuntimeView, depth: nat) -> Outcome
    decreases depth, 0int, 0int,
{
    if depth == 0 {
        Some(Err(RuntimeError::DepthExceeded))
    } else if binding.is_pointer {
        match binding.pointer_to {
            None => Some(Err(RuntimeError::DanglingReference)),
            Some(target) => match variable_index(env.variables, target) {
                None => Some(Err(RuntimeError::VariableNotFound)),
                Some(i) => eval_runtime(env.variables[i].definition, env, (depth - 1) as nat),
            },
        }
    } else {
        eval(binding.orig, env, (depth - 1) as nat)
    }
}

/// What the first `n` of the arguments `args` are bound to, evaluated from
/// the left in `env`: a reference stays a reference to the variable that it
/// ends at, every other argument is bound to its value.
pub open spec fn bind_arguments(
    args: Seq<RuntimeExpressionView>,
    n: nat,
    env: RuntimeView,
    depth: nat,
) -> Bound
    decreases depth, 1int, n,
{
    if n == 0 {
        Some(Ok((Seq::empty(), env)))
    } else {
        match bind_arguments(args, (n - 1) as nat, env, depth) {
            None => None,
            Some(Err(e)) => Some(Err(e)),
            Some(Ok((bindings, env1))) => {
                let arg = args[n - 1];
                if arg.is_pointer {
                    match arg.pointer_to {
                        None => Some(Err(RuntimeError::DanglingReference)),
                        Some(to) => match reference_to(env1.variables, to) {
                            Err(e) => Some(Err(e)),
                            Ok(binding) => Some(Ok((bindings.push(binding), env1))),
                        },
                    }
                } else if depth == 0 {
                    Some(Err(RuntimeError::DepthExceeded))
                } else {
                    match eval(arg.orig, env1, (depth - 1) as nat) {
                        None => None,
                        Some(Err(e)) => Some(Err(e)),
                        Some(Ok((value, env2))) => Some(
                            Ok((bindings.push(value_binding(value)), env2)),
                        ),
                    }
                }
            },
        }
    }
}

/// What a call of the function `function` with the arguments `args` comes to
/// in `env`. A function that caches its results refuses references, binds
/// its arguments, and runs its body only where it remembers no result for
/// these bindings; it then notes the result. The body runs in the
/// environment that [`enter`] gives and leaves the one that [`leave`] gives.
pub open spec fn invoke(
    function: RuntimeFunctionView,
    args: Seq<RuntimeExpressionView>,
    env: RuntimeView,
    depth: nat,
) -> Outcome
    decreases depth, 2int, 0int,
{
    if function.cached && has_reference(args) {
        Some(Err(RuntimeError::ReferenceInCachedCall))
    } else {
        match bind_arguments(args, args.len(), env, depth) {
            None => None,
            Some(Err(e)) => Some(Err(e)),
            Some(Ok((bindings, env1))) => {
                let known = if function.cached {
                    cached_result(env1.functions, function.name, function.parameters.len(), bindings)
                } else {
                    None
                };
                if known is Some {
                    Some(Ok((known->0, env1)))
                } else if depth == 0 {
                    Some(Err(RuntimeError::DepthExceeded))
                } else {
                    match eval_runtime(
                        function.definition,
                        enter(env1, function.parameters, bindings),
                        (depth - 1) as nat,
                    ) {
                        None => None,
                        Some(Err(e)) => Some(Err(e)),
                        Some(Ok((result, env2))) => if function.cached {
                            Some(
                                Ok(
                                    (
                                        result,
                                        remember(
                                            leave(env2),
                                            function.name,
                                            function.parameters.len(),
                                            bindings,
                                            result,
                                        ),
                                    ),
                                ),
                            )
                        } else {
                            Some(Ok((result, leave(env2))))
                        },
                    }
                }
            },
        }
    }
}

/// What a call of the function named `name` with the arguments `args` comes
/// to in `env`: the first function of the program with this name and as many
/// parameters is invoked; where there is none but the host supplies one,
/// nothing is known.
pub open spec fn call(name: Seq<char>, args: Seq<RuntimeExpressionView>, env: RuntimeView, depth: nat) -> Outcome
    decreases depth, 3int, 0int,
{
    match function_index(env.functions, name, args.len()) {
        Some(i) => invoke(env.functions[i], args, env, depth),
        None => if has_external(env.external_functions, name, args.len()) {
            None
        } else {
            Some(Err(RuntimeError::FunctionNotFound))
        },
    }
}

/// The variable `variable` as a running program holds it.
pub open spec fn runtime_variable_of(variable: VariableView) -> RuntimeVariableView {
    RuntimeVariableView {
        name: variable.name,
        definition: plain_binding(variable.definition),
        function_argument: false,
        constant: variable.constant,
    }
}

/// The function `function` as a running program holds it: it remembers
/// nothing yet.
pub open spec fn runtime_function_of(function: FunctionView) -> RuntimeFunctionView {
    RuntimeFunctionView {
        name: function.name,
        definition: plain_binding(function.definition),
        parameters: function.parameters,
        cached: function.cached,
        cache: Seq::empty(),
    }
}

/// The functions among `functions` that the program defines itself.
pub open spec fn defined_functions(functions: Seq<FunctionView>) -> Seq<FunctionView> {
    functions.filter(|f: FunctionView| !(f.definition is External))
}

/// The environment in which the program `ast` starts beside the host's
/// functions `externals`.
pub open spec fn initial_environment(ast: AstView, externals: Seq<ExternalFunctionView>) -> RuntimeView {
    RuntimeView {
        variables: ast.variables.map_values(|v: VariableView| runtime_variable_of(v)),
        functions: defined_functions(ast.functions).map_values(
            |f: FunctionView| runtime_function_of(f),
        ),
        external_functions: externals,
    }
}

/// What is left of `env` after the first `n` of `expressions` have run in
/// order, or the error of the first that fails. `None` where a function of
/// the host was called.
pub open spec fn run(expressions: Seq<ExpressionView>, n: nat, env: RuntimeView, depth: nat) -> Option<
    Result<RuntimeView, RuntimeError>,
>
    decreases n,
{
    if n == 0 {
        Some(Ok(env))
    } else {
        match run(expressions, (n - 1) as nat, env, depth) {
            None => None,
            Some(Err(e)) => Some(Err(e)),
            Some(Ok(env1)) => match eval_runtime(wrap(expressions[n - 1]), env1, depth) {
                None => None,
                Some(Err(e)) => Some(Err(e)),
                Some(Ok((_, env2))) => Some(Ok(env2)),
            },
        }
    }
}

/// The text of the expression `expression`, as a program would write it,
/// with each operand of an operator in parentheses.
pub open spec fn expression_text(expression: ExpressionView) -> Seq<char>
    decreases expression,
{
    match expression {
        ExpressionView::Empty => "none"@,
        ExpressionView::External => "external"@,
        ExpressionView::NumberValue { value } => decimal_text(value),
        ExpressionView::VariableAccess { variable } => variable,
        ExpressionView::Math { var1, var2, math } => "("@ + expression_text(*var1) + ") "@
            + math.symbol() + " ("@ + expression_text(*var2) + ")"@,
        ExpressionView::FunctionInvocation { function, arguments } => function + "("@
            + joined_texts(arguments) + ")"@,
        ExpressionView::VariableAssignment { variable, value } => variable + " = "@
            + expression_text(*value),
        ExpressionView::Pointer { to } => "*"@ + to,
    }
}

/// The texts of the expressions `list`, with a comma and a space between
/// them.
pub open spec fn joined_texts(list: Seq<ExpressionView>) -> Seq<char>
    decreases list,
{
    if list.len() == 0 {
        Seq::empty()
    } else if list.len() == 1 {
        expression_text(list[0])
    } else {
        joined_texts(list.drop_last()) + ", "@ + expression_text(list.last())
    }
}

} // verus!
