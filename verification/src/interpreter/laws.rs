//! What holds of every evaluation.

use crate::ast::ExpressionView;
use crate::ast::MathType;
use crate::error::RuntimeError;
use crate::interpreter::semantics::apply;
use crate::interpreter::semantics::assign;
use crate::interpreter::semantics::bind_arguments;
use crate::interpreter::semantics::cached_result;
use crate::interpreter::semantics::call;
use crate::interpreter::semantics::enter;
use crate::interpreter::semantics::eval;
use crate::interpreter::semantics::eval_runtime;
use crate::interpreter::semantics::has_reference;
use crate::interpreter::semantics::invoke;
use crate::interpreter::semantics::leave;
use crate::interpreter::semantics::parameter_variables;
use crate::interpreter::semantics::plain_binding;
use crate::interpreter::semantics::reference_binding;
use crate::interpreter::semantics::reference_to;
use crate::interpreter::semantics::remember;
use crate::interpreter::semantics::cache_lookup;
use crate::interpreter::semantics::without_parameters;
use crate::interpreter::runtime::RuntimeVariableView;
use crate::interpreter::runtime::Tuple;
use crate::interpreter::runtime::function_index;
use crate::interpreter::runtime::lemma_function_index;
use crate::interpreter::runtime::lemma_function_index_is;
use crate::interpreter::runtime::lemma_variable_index;
use crate::interpreter::runtime::lemma_variable_index_is;
use crate::interpreter::runtime::variable_index;
use crate::interpreter::runtime::CacheEntryView;
use crate::interpreter::runtime::RuntimeExpressionView;
use crate::interpreter::runtime::RuntimeFunctionView;
use crate::interpreter::runtime::RuntimeView;
use crate::interpreter::semantics::value_binding;
use crate::interpreter::semantics::wrap;
use crate::interpreter::semantics::wrap_all;
use crate::interpreter::semantics::Bound;
use crate::interpreter::semantics::Outcome;
use crate::parser::expression::negation;
use vstd::prelude::*;

verus! {

/// Whether `math` compares its operands.
pub open spec fn is_comparison(math: MathType) -> bool {
    math == MathType::Equals || math == MathType::NotEquals || math == MathType::BiggerOrEquals
        || math == MathType::Bigger || math == MathType::SmallerOrEquals || math
        == MathType::Smaller
}

/// A comparison gives one or zero, and each comparison gives one exactly
/// where its opposite gives zero.
pub proof fn lemma_comparisons(math: MathType, a: int, b: int)
    requires
        is_comparison(math),
    ensures
        apply(math, a, b) == Ok::<int, RuntimeError>(1) || apply(math, a, b) == Ok::<
            int,
            RuntimeError,
        >(0),
        apply(MathType::Equals, a, b) != apply(MathType::NotEquals, a, b),
        apply(MathType::Bigger, a, b) != apply(MathType::SmallerOrEquals, a, b),
        apply(MathType::Smaller, a, b) != apply(MathType::BiggerOrEquals, a, b),
        apply(MathType::Bigger, a, b) == apply(MathType::Smaller, b, a),
{
}

/// Whether the outcome `outcome` is not the failure of the depth limit.
pub open spec fn within_depth(outcome: Outcome) -> bool {
    outcome != Some(Err::<(int, RuntimeView), RuntimeError>(RuntimeError::DepthExceeded))
}

/// Whether the outcome `outcome` is not the failure of the depth limit.
pub open spec fn bound_within_depth(outcome: Bound) -> bool {
    outcome != Some(
        Err::<(Seq<RuntimeExpressionView>, RuntimeView), RuntimeError>(RuntimeError::DepthExceeded),
    )
}

/// An assignment that a depth allows comes to the same at every greater depth.
pub proof fn lemma_assign_deeper(name: Seq<char>, value: int, env: RuntimeView, d1: nat, d2: nat)
    requires
        d1 <= d2,
        assign(name, value, env, d1) != Err::<RuntimeView, RuntimeError>(
            RuntimeError::DepthExceeded,
        ),
    ensures
        assign(name, value, env, d2) == assign(name, value, env, d1),
    decreases d1,
{
    match variable_index(env.variables, name) {
        None => {},
        Some(i) => {
            let variable = env.variables[i];
            if variable.definition.is_pointer {
                match variable.definition.pointer_to {
                    None => {},
                    Some(target) => {
                        if d1 > 0 {
                            lemma_assign_deeper(
                                target,
                                value,
                                env,
                                (d1 - 1) as nat,
                                (d2 - 1) as nat,
                            );
                        }
                    },
                }
            }
        },
    }
}

/// An evaluation that a depth allows comes to the same at every greater
/// depth: the depth limits how deep evaluations nest, and nothing else
/// depends on it.
pub proof fn lemma_eval_deeper(expression: ExpressionView, env: RuntimeView, d1: nat, d2: nat)
    requires
        d1 <= d2,
        within_depth(eval(expression, env, d1)),
    ensures
        eval(expression, env, d2) == eval(expression, env, d1),
    decreases d1, 0int, 0int,
{
    let r1 = (d1 - 1) as nat;
    let r2 = (d2 - 1) as nat;
    match expression {
        ExpressionView::NumberValue { value } => {},
        ExpressionView::VariableAccess { variable } => {
            match variable_index(env.variables, variable) {
                None => {},
                Some(i) => {
                    lemma_eval_runtime_deeper(env.variables[i].definition, env, r1, r2);
                },
            }
        },
        ExpressionView::Pointer { to } => {
            lemma_eval_runtime_deeper(wrap(expression), env, r1, r2);
        },
        ExpressionView::Math { var1, var2, math } => {
            lemma_eval_runtime_deeper(wrap(*var1), env, r1, r2);
            match eval_runtime(wrap(*var1), env, r1) {
                Some(Ok((a, env1))) => {
                    lemma_eval_runtime_deeper(wrap(*var2), env1, r1, r2);
                },
                _ => {},
            }
        },
        ExpressionView::FunctionInvocation { function, arguments } => {
            lemma_call_deeper(function, wrap_all(arguments), env, r1, r2);
        },
        ExpressionView::VariableAssignment { variable, value } => {
            lemma_eval_runtime_deeper(wrap(*value), env, r1, r2);
            match eval_runtime(wrap(*value), env, r1) {
                Some(Ok((v, env1))) => {
                    lemma_assign_deeper(variable, v, env1, r1, r2);
                },
                _ => {},
            }
        },
        ExpressionView::Empty | ExpressionView::External => {},
    }
}

/// The evaluation of a binding that a depth allows comes to the same at
/// every greater depth.
pub proof fn lemma_eval_runtime_deeper(binding: RuntimeExpressionView, env: RuntimeView, d1: nat, d2: nat)
    requires
        d1 <= d2,
        within_depth(eval_runtime(binding, env, d1)),
    ensures
        eval_runtime(binding, env, d2) == eval_runtime(binding, env, d1),
    decreases d1, 0int, 0int,
{
    let r1 = (d1 - 1) as nat;
    let r2 = (d2 - 1) as nat;
    if binding.is_pointer {
        match binding.pointer_to {
            None => {},
            Some(target) => match variable_index(env.variables, target) {
                None => {},
                Some(i) => {
                    lemma_eval_runtime_deeper(env.variables[i].definition, env, r1, r2);
                },
            },
        }
    } else {
        lemma_eval_deeper(binding.orig, env, r1, r2);
    }
}

/// The binding of arguments that a depth allows comes to the same at every
/// greater depth.
pub proof fn lemma_bind_arguments_deeper(
    args: Seq<RuntimeExpressionView>,
    n: nat,
    env: RuntimeView,
    d1: nat,
    d2: nat,
)
    requires
        d1 <= d2,
        bound_within_depth(bind_arguments(args, n, env, d1)),
    ensures
        bind_arguments(args, n, env, d2) == bind_arguments(args, n, env, d1),
    decreases d1, 1int, n,
{
    if n > 0 {
        lemma_bind_arguments_deeper(args, (n - 1) as nat, env, d1, d2);
        match bind_arguments(args, (n - 1) as nat, env, d1) {
            Some(Ok((bindings, env1))) => {
                let arg = args[n - 1];
                if !arg.is_pointer && d1 > 0 {
                    lemma_eval_deeper(arg.orig, env1, (d1 - 1) as nat, (d2 - 1) as nat);
                }
            },
            _ => {},
        }
    }
}

/// A call of a function that a depth allows comes to the same at every
/// greater depth.
pub proof fn lemma_invoke_deeper(
    function: RuntimeFunctionView,
    args: Seq<RuntimeExpressionView>,
    env: RuntimeView,
    d1: nat,
    d2: nat,
)
    requires
        d1 <= d2,
        within_depth(invoke(function, args, env, d1)),
    ensures
        invoke(function, args, env, d2) == invoke(function, args, env, d1),
    decreases d1, 2int, 0int,
{
    if !(function.cached && has_reference(args)) {
        lemma_bind_arguments_deeper(args, args.len(), env, d1, d2);
        match bind_arguments(args, args.len(), env, d1) {
            Some(Ok((bindings, env1))) => {
                let known = if function.cached {
                    cached_result(env1.functions, function.name, function.parameters.len(), bindings)
                } else {
                    None
                };
                if known is None && d1 > 0 {
                    lemma_eval_runtime_deeper(
                        function.definition,
                        enter(env1, function.parameters, bindings),
                        (d1 - 1) as nat,
                        (d2 - 1) as nat,
                    );
                }
            },
            _ => {},
        }
    }
}

/// A call by name that a depth allows comes to the same at every greater
/// depth.
pub proof fn lemma_call_deeper(
    name: Seq<char>,
    args: Seq<RuntimeExpressionView>,
    env: RuntimeView,
    d1: nat,
    d2: nat,
)
    requires
        d1 <= d2,
        within_depth(call(name, args, env, d1)),
    ensures
        call(name, args, env, d2) == call(name, args, env, d1),
    decreases d1, 3int, 0int,
{
    match function_index(env.functions, name, args.len()) {
        Some(i) => {
            lemma_invoke_deeper(env.functions[i], args, env, d1, d2);
        },
        None => {},
    }
}

/// A negation evaluates its operand twice, the second time in the
/// environment that the first evaluation left: its value is the first
/// value less twice the second, and it leaves what the second evaluation
/// left.
pub proof fn lemma_negation_evaluates_twice(
    operand: ExpressionView,
    env: RuntimeView,
    first: int,
    between: RuntimeView,
    second: int,
    after: RuntimeView,
    depth: nat,
)
    requires
        eval_runtime(wrap(operand), env, depth + 2) == Some(
            Ok::<(int, RuntimeView), RuntimeError>((first, between)),
        ),
        eval_runtime(wrap(operand), between, depth) == Some(
            Ok::<(int, RuntimeView), RuntimeError>((second, after)),
        ),
    ensures
        eval(negation(operand), env, depth + 3) == Some(
            Ok::<(int, RuntimeView), RuntimeError>((first - second * 2, after)),
        ),
{
    let two = ExpressionView::NumberValue { value: 2 };
    let twice = ExpressionView::Math {
        var1: Box::new(operand),
        var2: Box::new(two),
        math: MathType::Multiply,
    };
    let done = |v: int, e: RuntimeView| Some(Ok::<(int, RuntimeView), RuntimeError>((v, e)));
    assert(depth >= 2) by {
        reveal_with_fuel(eval_runtime, 2);
        reveal_with_fuel(eval, 2);
    }
    assert(eval(two, after, (depth - 1) as nat) == done(2, after));
    assert(eval_runtime(wrap(two), after, depth) == done(2, after));
    assert(eval(twice, between, depth + 1) == done(second * 2, after));
    assert(eval_runtime(wrap(twice), between, depth + 2) == done(second * 2, after));
    assert(apply(MathType::Subtract, first, second * 2) == Ok::<int, RuntimeError>(
        first - second * 2,
    ));
}

/// The negation of an operand that has a value and leaves the environment
/// as it is evaluates to the negative of that value, and leaves the
/// environment as it is.
pub proof fn lemma_negation(operand: ExpressionView, env: RuntimeView, value: int, depth: nat)
    requires
        eval_runtime(wrap(operand), env, depth) == Some(
            Ok::<(int, RuntimeView), RuntimeError>((value, env)),
        ),
    ensures
        eval(negation(operand), env, depth + 3) == Some(
            Ok::<(int, RuntimeView), RuntimeError>((-value, env)),
        ),
{
    lemma_eval_runtime_deeper(wrap(operand), env, depth, depth + 2);
    lemma_negation_evaluates_twice(operand, env, value, env, value, env, depth);
}

/// A function that caches its results and remembers one for the bindings of
/// a call returns that result; its body does not run, so the environment is
/// the one that the binding of the arguments left.
pub proof fn lemma_cached_call(
    function: RuntimeFunctionView,
    args: Seq<RuntimeExpressionView>,
    env: RuntimeView,
    depth: nat,
    bindings: Seq<RuntimeExpressionView>,
    bound: RuntimeView,
    result: int,
)
    requires
        function.cached,
        !has_reference(args),
        bind_arguments(args, args.len(), env, depth) == Some(
            Ok::<(Seq<RuntimeExpressionView>, RuntimeView), RuntimeError>((bindings, bound)),
        ),
        cached_result(bound.functions, function.name, function.parameters.len(), bindings) == Some(
            result,
        ),
    ensures
        invoke(function, args, env, depth) == Some(
            Ok::<(int, RuntimeView), RuntimeError>((result, bound)),
        ),
{
}

/// After a function has noted a result for some bindings, it remembers a
/// result for them: the one noted, unless it remembered one before.
pub proof fn lemma_result_remembered(
    env: RuntimeView,
    name: Seq<char>,
    arity: nat,
    key: Seq<RuntimeExpressionView>,
    result: int,
)
    requires
        function_index(env.functions, name, arity) is Some,
    ensures
        cached_result(env.functions, name, arity, key) is None ==> cached_result(
            remember(env, name, arity, key, result).functions,
            name,
            arity,
            key,
        ) == Some(result),
        cached_result(env.functions, name, arity, key) is Some ==> cached_result(
            remember(env, name, arity, key, result).functions,
            name,
            arity,
            key,
        ) == cached_result(env.functions, name, arity, key),
{
    lemma_function_index(env.functions, name, arity);
    let i = function_index(env.functions, name, arity)->0;
    let after = remember(env, name, arity, key, result).functions;
    let old_cache = env.functions[i].cache;
    let new_cache = old_cache.push(Tuple { a: key, b: result });
    assert(after[i].name == name && after[i].parameters.len() == arity);
    assert forall|j: int| 0 <= j < i implies !((#[trigger] after[j]).name == name
        && after[j].parameters.len() == arity) by {
        assert(after[j] == env.functions[j]);
    }
    lemma_function_index_is(after, name, arity, i);
    assert(after[i].cache == new_cache);
    lemma_cache_lookup(old_cache, key);
    lemma_cache_lookup(new_cache, key);
    assert(new_cache[old_cache.len() as int].a == key);
    if cache_lookup(old_cache, key) is None {
        assert forall|j: int| 0 <= j < old_cache.len() implies (#[trigger] new_cache[j]).a != key by {
            assert(old_cache[j] == new_cache[j]);
        }
        let found = first_entry(new_cache, key);
        assert(found == old_cache.len());
    } else {
        let first = first_entry(old_cache, key);
        let found = first_entry(new_cache, key);
        assert(new_cache[first] == old_cache[first]);
        if found < first {
            assert(old_cache[found] == new_cache[found]);
        }
        if first < found {
            assert(new_cache[first].a == key);
        }
    }
}

/// The place of the first entry of `cache` for the bindings `key`.
pub open spec fn first_entry(cache: Seq<CacheEntryView>, key: Seq<RuntimeExpressionView>) -> int {
    choose|i: int|
        0 <= i < cache.len() && (#[trigger] cache[i]).a == key && forall|j: int|
            0 <= j < i ==> (#[trigger] cache[j]).a != key
}

/// What [`cache_lookup`] gives is the result of the first entry for the
/// bindings; it gives none only where there is no entry for them.
pub proof fn lemma_cache_lookup(cache: Seq<CacheEntryView>, key: Seq<RuntimeExpressionView>)
    ensures
        match cache_lookup(cache, key) {
            Some(result) => {
                let i = first_entry(cache, key);
                &&& 0 <= i < cache.len()
                &&& cache[i].a == key
                &&& cache[i].b == result
                &&& forall|j: int| 0 <= j < i ==> (#[trigger] cache[j]).a != key
            },
            None => forall|j: int| 0 <= j < cache.len() ==> (#[trigger] cache[j]).a != key,
        },
{
    reveal(cache_lookup);
    if exists|i: int| 0 <= i < cache.len() && (#[trigger] cache[i]).a == key {
        let some = choose|i: int| 0 <= i < cache.len() && (#[trigger] cache[i]).a == key;
        lemma_first_entry(cache, key, some);
    }
}

/// Where an entry for some bindings is at a place, a first one is at or
/// before it.
proof fn lemma_first_entry(cache: Seq<CacheEntryView>, key: Seq<RuntimeExpressionView>, at: int)
    requires
        0 <= at < cache.len(),
        cache[at].a == key,
    ensures
        exists|i: int|
            0 <= i < cache.len() && (#[trigger] cache[i]).a == key && forall|j: int|
                0 <= j < i ==> (#[trigger] cache[j]).a != key,
    decreases at,
{
    if exists|k: int| 0 <= k < at && (#[trigger] cache[k]).a == key {
        let k = choose|k: int| 0 <= k < at && (#[trigger] cache[k]).a == key;
        lemma_first_entry(cache, key, k);
    } else {
        assert(cache[at].a == key && forall|j: int| 0 <= j < at ==> (#[trigger] cache[j]).a != key);
    }
}

/// A function that caches its results refuses every call that hands it a
/// reference, before anything is evaluated.
pub proof fn lemma_cached_call_refuses_reference(
    function: RuntimeFunctionView,
    args: Seq<RuntimeExpressionView>,
    env: RuntimeView,
    depth: nat,
)
    requires
        function.cached,
        has_reference(args),
    ensures
        invoke(function, args, env, depth) == Some(
            Err::<(int, RuntimeView), RuntimeError>(RuntimeError::ReferenceInCachedCall),
        ),
{
}

/// An assignment to a parameter that is bound to a variable changes that
/// variable: the variable is then bound to the value, and everything else
/// is as it was.
pub proof fn lemma_assignment_through_reference(
    parameter: Seq<char>,
    target: Seq<char>,
    value: int,
    env: RuntimeView,
    depth: nat,
)
    requires
        depth > 0,
        variable_index(env.variables, parameter) is Some,
        env.variables[variable_index(env.variables, parameter)->0].definition.is_pointer,
        env.variables[variable_index(env.variables, parameter)->0].definition.pointer_to == Some(
            target,
        ),
        variable_index(env.variables, target) is Some,
        !env.variables[variable_index(env.variables, target)->0].definition.is_pointer,
        !env.variables[variable_index(env.variables, target)->0].constant,
    ensures
        assign(parameter, value, env, depth) == Ok::<RuntimeView, RuntimeError>(
            RuntimeView {
                variables: env.variables.update(
                    variable_index(env.variables, target)->0,
                    RuntimeVariableView {
                        definition: value_binding(value),
                        ..env.variables[variable_index(env.variables, target)->0]
                    },
                ),
                ..env
            },
        ),
{
    assert(assign(parameter, value, env, depth) == assign(target, value, env, (depth - 1) as nat));
}

/// Whether `after` holds the functions of `before`, each remembering what
/// it remembered in `before` and perhaps more, and the same functions of
/// the host.
pub open spec fn caches_grow(before: RuntimeView, after: RuntimeView) -> bool {
    &&& after.external_functions == before.external_functions
    &&& after.functions.len() == before.functions.len()
    &&& forall|i: int|
        0 <= i < before.functions.len() ==> {
            &&& (#[trigger] after.functions[i]).name == before.functions[i].name
            &&& after.functions[i].definition == before.functions[i].definition
            &&& after.functions[i].parameters == before.functions[i].parameters
            &&& after.functions[i].cached == before.functions[i].cached
            &&& before.functions[i].cache.is_prefix_of(after.functions[i].cache)
        }
}

/// Caches that grow twice have grown.
pub proof fn lemma_caches_grow_twice(first: RuntimeView, second: RuntimeView, third: RuntimeView)
    requires
        caches_grow(first, second),
        caches_grow(second, third),
    ensures
        caches_grow(first, third),
{
    assert forall|i: int| 0 <= i < first.functions.len() implies first.functions[i].cache.is_prefix_of(
        (#[trigger] third.functions[i]).cache,
    ) by {
        let a = first.functions[i].cache;
        let b = second.functions[i].cache;
        let c = third.functions[i].cache;
        assert(a.is_prefix_of(b) && b.is_prefix_of(c));
        assert(a =~= c.subrange(0, a.len() as int)) by {
            assert(b == c.subrange(0, b.len() as int));
            assert(a == b.subrange(0, a.len() as int));
        }
    }
}

/// Where the caches have grown, the functions are found where they were.
pub proof fn lemma_function_index_kept(
    before: RuntimeView,
    after: RuntimeView,
    name: Seq<char>,
    arity: nat,
)
    requires
        caches_grow(before, after),
    ensures
        function_index(after.functions, name, arity) == function_index(before.functions, name, arity),
{
    lemma_function_index(before.functions, name, arity);
    lemma_function_index(after.functions, name, arity);
    match function_index(before.functions, name, arity) {
        Some(i) => {
            assert(after.functions[i].name == name);
            match function_index(after.functions, name, arity) {
                Some(j) => {
                    if j < i {
                        assert(before.functions[j].name == after.functions[j].name);
                    }
                    if i < j {
                        assert(after.functions[i].name == name);
                    }
                },
                None => {},
            }
        },
        None => {
            match function_index(after.functions, name, arity) {
                Some(j) => {
                    assert(before.functions[j].name == after.functions[j].name);
                },
                None => {},
            }
        },
    }
}

/// Where the caches have grown, what a function remembered it remembers
/// still: a result, once noted, is the result of every later call with the
/// same bindings.
pub proof fn lemma_remembered_stays(
    before: RuntimeView,
    after: RuntimeView,
    name: Seq<char>,
    arity: nat,
    key: Seq<RuntimeExpressionView>,
)
    requires
        caches_grow(before, after),
        cached_result(before.functions, name, arity, key) is Some,
    ensures
        cached_result(after.functions, name, arity, key) == cached_result(
            before.functions,
            name,
            arity,
            key,
        ),
{
    lemma_function_index_kept(before, after, name, arity);
    lemma_function_index(before.functions, name, arity);
    let i = function_index(before.functions, name, arity)->0;
    let old_cache = before.functions[i].cache;
    let new_cache = after.functions[i].cache;
    assert(old_cache.is_prefix_of(new_cache));
    lemma_cache_lookup(old_cache, key);
    lemma_cache_lookup(new_cache, key);
    let first = first_entry(old_cache, key);
    assert(new_cache[first] == old_cache[first]);
    let found = first_entry(new_cache, key);
    if found < first {
        assert(old_cache[found] == new_cache[found]);
    }
    if first < found {
        assert(new_cache[first].a == key);
    }
}

/// An assignment changes no function.
pub proof fn lemma_assign_keeps_functions(name: Seq<char>, value: int, env: RuntimeView, depth: nat)
    requires
        assign(name, value, env, depth) is Ok,
    ensures
        assign(name, value, env, depth)->Ok_0.functions == env.functions,
        assign(name, value, env, depth)->Ok_0.external_functions == env.external_functions,
    decreases depth,
{
    match variable_index(env.variables, name) {
        None => {},
        Some(i) => {
            let variable = env.variables[i];
            if variable.definition.is_pointer {
                match variable.definition.pointer_to {
                    None => {},
                    Some(target) => {
                        if depth > 0 {
                            lemma_assign_keeps_functions(target, value, env, (depth - 1) as nat);
                        }
                    },
                }
            }
        },
    }
}

/// An evaluation takes no function away and makes no function forget.
pub proof fn lemma_eval_keeps_functions(expression: ExpressionView, env: RuntimeView, depth: nat)
    requires
        eval(expression, env, depth) matches Some(Ok(_)),
    ensures
        caches_grow(env, eval(expression, env, depth)->0->Ok_0.1),
    decreases depth, 0int, 0int,
{
    let rest = (depth - 1) as nat;
    match expression {
        ExpressionView::NumberValue { value } => {},
        ExpressionView::VariableAccess { variable } => {
            match variable_index(env.variables, variable) {
                None => {},
                Some(i) => {
                    lemma_eval_runtime_keeps_functions(env.variables[i].definition, env, rest);
                },
            }
        },
        ExpressionView::Pointer { to } => {
            lemma_eval_runtime_keeps_functions(wrap(expression), env, rest);
        },
        ExpressionView::Math { var1, var2, math } => {
            lemma_eval_runtime_keeps_functions(wrap(*var1), env, rest);
            match eval_runtime(wrap(*var1), env, rest) {
                Some(Ok((a, env1))) => {
                    lemma_eval_runtime_keeps_functions(wrap(*var2), env1, rest);
                    match eval_runtime(wrap(*var2), env1, rest) {
                        Some(Ok((b, env2))) => {
                            lemma_caches_grow_twice(env, env1, env2);
                        },
                        _ => {},
                    }
                },
                _ => {},
            }
        },
        ExpressionView::FunctionInvocation { function, arguments } => {
            lemma_call_keeps_functions(function, wrap_all(arguments), env, rest);
        },
        ExpressionView::VariableAssignment { variable, value } => {
            lemma_eval_runtime_keeps_functions(wrap(*value), env, rest);
            match eval_runtime(wrap(*value), env, rest) {
                Some(Ok((v, env1))) => {
                    lemma_assign_keeps_functions(variable, v, env1, rest);
                    let env2 = assign(variable, v, env1, rest)->Ok_0;
                    assert(caches_grow(env1, env2));
                    lemma_caches_grow_twice(env, env1, env2);
                },
                _ => {},
            }
        },
        ExpressionView::Empty | ExpressionView::External => {},
    }
}

/// The evaluation of a binding takes no function away and makes no
/// function forget.
pub proof fn lemma_eval_runtime_keeps_functions(
    binding: RuntimeExpressionView,
    env: RuntimeView,
    depth: nat,
)
    requires
        eval_runtime(binding, env, depth) matches Some(Ok(_)),
    ensures
        caches_grow(env, eval_runtime(binding, env, depth)->0->Ok_0.1),
    decreases depth, 0int, 0int,
{
    let rest = (depth - 1) as nat;
    if binding.is_pointer {
        match binding.pointer_to {
            None => {},
            Some(target) => match variable_index(env.variables, target) {
                None => {},
                Some(i) => {
                    lemma_eval_runtime_keeps_functions(env.variables[i].definition, env, rest);
                },
            },
        }
    } else {
        lemma_eval_keeps_functions(binding.orig, env, rest);
    }
}

/// The binding of arguments takes no function away and makes no function
/// forget.
pub proof fn lemma_bind_arguments_keeps_functions(
    args: Seq<RuntimeExpressionView>,
    n: nat,
    env: RuntimeView,
    depth: nat,
)
    requires
        bind_arguments(args, n, env, depth) matches Some(Ok(_)),
    ensures
        caches_grow(env, bind_arguments(args, n, env, depth)->0->Ok_0.1),
    decreases depth, 1int, n,
{
    if n > 0 {
        lemma_bind_arguments_keeps_functions(args, (n - 1) as nat, env, depth);
        match bind_arguments(args, (n - 1) as nat, env, depth) {
            Some(Ok((bindings, env1))) => {
                let arg = args[n - 1];
                if !arg.is_pointer {
                    lemma_eval_keeps_functions(arg.orig, env1, (depth - 1) as nat);
                    match eval(arg.orig, env1, (depth - 1) as nat) {
                        Some(Ok((value, env2))) => {
                            lemma_caches_grow_twice(env, env1, env2);
                        },
                        _ => {},
                    }
                }
            },
            _ => {},
        }
    }
}

/// After a function has noted a result, the caches have grown.
pub proof fn lemma_remember_grows(
    env: RuntimeView,
    name: Seq<char>,
    arity: nat,
    key: Seq<RuntimeExpressionView>,
    result: int,
)
    ensures
        caches_grow(env, remember(env, name, arity, key, result)),
{
    lemma_function_index(env.functions, name, arity);
    let after = remember(env, name, arity, key, result);
    assert forall|i: int| 0 <= i < env.functions.len() implies env.functions[i].cache.is_prefix_of(
        (#[trigger] after.functions[i]).cache,
    ) by {
        assert(env.functions[i].cache =~= after.functions[i].cache.subrange(
            0,
            env.functions[i].cache.len() as int,
        ));
    }
}

/// A call of a function takes no function away and makes no function forget.
pub proof fn lemma_invoke_keeps_functions(
    function: RuntimeFunctionView,
    args: Seq<RuntimeExpressionView>,
    env: RuntimeView,
    depth: nat,
)
    requires
        invoke(function, args, env, depth) matches Some(Ok(_)),
    ensures
        caches_grow(env, invoke(function, args, env, depth)->0->Ok_0.1),
    decreases depth, 2int, 0int,
{
    lemma_bind_arguments_keeps_functions(args, args.len(), env, depth);
    match bind_arguments(args, args.len(), env, depth) {
        Some(Ok((bindings, env1))) => {
            let known = if function.cached {
                cached_result(env1.functions, function.name, function.parameters.len(), bindings)
            } else {
                None
            };
            if known is None {
                let entered = enter(env1, function.parameters, bindings);
                lemma_eval_runtime_keeps_functions(function.definition, entered, (depth - 1) as nat);
                match eval_runtime(function.definition, entered, (depth - 1) as nat) {
                    Some(Ok((result, env2))) => {
                        let left = leave(env2);
                        assert(caches_grow(env1, entered));
                        assert(caches_grow(env2, left));
                        lemma_caches_grow_twice(env1, entered, env2);
                        lemma_caches_grow_twice(env1, env2, left);
                        lemma_caches_grow_twice(env, env1, left);
                        if function.cached {
                            let noted = remember(
                                left,
                                function.name,
                                function.parameters.len(),
                                bindings,
                                result,
                            );
                            lemma_remember_grows(
                                left,
                                function.name,
                                function.parameters.len(),
                                bindings,
                                result,
                            );
                            lemma_caches_grow_twice(env, left, noted);
                        }
                    },
                    _ => {},
                }
            }
        },
        _ => {},
    }
}

/// A call by name takes no function away and makes no function forget.
pub proof fn lemma_call_keeps_functions(
    name: Seq<char>,
    args: Seq<RuntimeExpressionView>,
    env: RuntimeView,
    depth: nat,
)
    requires
        call(name, args, env, depth) matches Some(Ok(_)),
    ensures
        caches_grow(env, call(name, args, env, depth)->0->Ok_0.1),
    decreases depth, 3int, 0int,
{
    match function_index(env.functions, name, args.len()) {
        Some(i) => {
            lemma_invoke_keeps_functions(env.functions[i], args, env, depth);
        },
        None => {},
    }
}

/// After a call of a function of the environment that caches its results
/// has come back, the function remembers a result for the bindings of that
/// call: the same call again does not run the body.
pub proof fn lemma_call_is_remembered(
    function: RuntimeFunctionView,
    args: Seq<RuntimeExpressionView>,
    env: RuntimeView,
    depth: nat,
)
    requires
        function.cached,
        function_index(env.functions, function.name, function.parameters.len()) is Some,
        invoke(function, args, env, depth) matches Some(Ok(_)),
    ensures
        bind_arguments(args, args.len(), env, depth) matches Some(Ok((bindings, _)))
            && cached_result(
            invoke(function, args, env, depth)->0->Ok_0.1.functions,
            function.name,
            function.parameters.len(),
            bindings,
        ) is Some,
{
    let name = function.name;
    let arity = function.parameters.len();
    match bind_arguments(args, args.len(), env, depth) {
        Some(Ok((bindings, env1))) => {
            lemma_bind_arguments_keeps_functions(args, args.len(), env, depth);
            lemma_function_index_kept(env, env1, name, arity);
            if cached_result(env1.functions, name, arity, bindings) is None {
                let entered = enter(env1, function.parameters, bindings);
                match eval_runtime(function.definition, entered, (depth - 1) as nat) {
                    Some(Ok((r, env2))) => {
                        lemma_eval_runtime_keeps_functions(
                            function.definition,
                            entered,
                            (depth - 1) as nat,
                        );
                        let left = leave(env2);
                        assert(caches_grow(env1, entered));
                        assert(caches_grow(env2, left));
                        lemma_caches_grow_twice(env1, entered, env2);
                        lemma_caches_grow_twice(env1, env2, left);
                        lemma_function_index_kept(env1, left, name, arity);
                        lemma_result_remembered(left, name, arity, bindings, r);
                    },
                    _ => {},
                }
            }
        },
        _ => {},
    }
}

/// Whether no assignment stands in the expression `expression`.
pub open spec fn assignment_free(expression: ExpressionView) -> bool
    decreases expression,
{
    match expression {
        ExpressionView::Math { var1, var2, math } => assignment_free(*var1) && assignment_free(
            *var2,
        ),
        ExpressionView::FunctionInvocation { function, arguments } => forall|i: int|
            0 <= i < arguments.len() ==> assignment_free(#[trigger] arguments[i]),
        ExpressionView::VariableAssignment { variable, value } => false,
        _ => true,
    }
}

/// Whether no assignment stands in the expressions of the bindings `args`.
pub open spec fn bindings_assignment_free(args: Seq<RuntimeExpressionView>) -> bool {
    forall|i: int| 0 <= i < args.len() ==> assignment_free((#[trigger] args[i]).orig)
}

/// Whether the environment `env` holds no assignment and no cache: no
/// definition of a variable and no body of a function holds an assignment,
/// and no function caches its results.
pub open spec fn plain_environment(env: RuntimeView) -> bool {
    &&& forall|i: int|
        0 <= i < env.variables.len() ==> assignment_free((#[trigger] env.variables[i]).definition.orig)
    &&& forall|i: int|
        0 <= i < env.functions.len() ==> !(#[trigger] env.functions[i]).cached && assignment_free(
            env.functions[i].definition.orig,
        )
}

/// Whether `after` is `before`, or `before` without its parameters.
pub open spec fn settled(before: RuntimeView, after: RuntimeView) -> bool {
    after == before || after == leave(before)
}

/// What is left without parameters holds no parameter, and only variables
/// that were there.
pub proof fn lemma_without_parameters_members(variables: Seq<RuntimeVariableView>)
    ensures
        forall|i: int|
            0 <= i < without_parameters(variables).len() ==> {
                &&& !(#[trigger] without_parameters(variables)[i]).function_argument
                &&& variables.contains(without_parameters(variables)[i])
            },
{
    let keep = |v: RuntimeVariableView| !v.function_argument;
    assert forall|i: int| 0 <= i < without_parameters(variables).len() implies {
        &&& !(#[trigger] without_parameters(variables)[i]).function_argument
        &&& variables.contains(without_parameters(variables)[i])
    } by {
        variables.lemma_filter_pred(keep, i);
        assert(variables.filter(keep).contains(variables.filter(keep)[i]));
        variables.lemma_filter_contains_rev(keep, variables.filter(keep)[i]);
    }
}

/// Variables among which no parameter is stay as they are where the
/// parameters are removed.
pub proof fn lemma_without_parameters_fixed(variables: Seq<RuntimeVariableView>)
    requires
        forall|i: int| 0 <= i < variables.len() ==> !(#[trigger] variables[i]).function_argument,
    ensures
        without_parameters(variables) == variables,
    decreases variables.len(),
{
    reveal(Seq::filter);
    if variables.len() > 0 {
        lemma_without_parameters_fixed(variables.drop_last());
        assert(variables.drop_last().push(variables.last()) =~= variables);
    }
}

/// Parameters are removed once and for all.
pub proof fn lemma_leave_twice(env: RuntimeView)
    ensures
        leave(leave(env)) == leave(env),
{
    lemma_without_parameters_members(env.variables);
    lemma_without_parameters_fixed(without_parameters(env.variables));
}

/// A function leaves behind what it found, without parameters.
pub proof fn lemma_leave_after_enter(
    env: RuntimeView,
    parameters: Seq<Seq<char>>,
    bindings: Seq<RuntimeExpressionView>,
)
    ensures
        leave(enter(env, parameters, bindings)) == leave(env),
{
    let keep = |v: RuntimeVariableView| !v.function_argument;
    let kept = without_parameters(env.variables);
    let added = parameter_variables(parameters, bindings);
    Seq::filter_distributes_over_add(kept, added, keep);
    lemma_without_parameters_members(env.variables);
    lemma_without_parameters_fixed(kept);
    assert(added.all(|v: RuntimeVariableView| !keep(v)));
    added.lemma_all_neg_filter_empty(keep);
    assert(added.filter(keep) =~= Seq::empty());
    assert(kept + Seq::<RuntimeVariableView>::empty() =~= kept);
}

/// An environment without assignments stays one where its parameters are
/// removed.
pub proof fn lemma_plain_leave(env: RuntimeView)
    requires
        plain_environment(env),
    ensures
        plain_environment(leave(env)),
{
    lemma_without_parameters_members(env.variables);
    assert forall|i: int| 0 <= i < leave(env).variables.len() implies assignment_free(
        (#[trigger] leave(env).variables[i]).definition.orig,
    ) by {
        let v = leave(env).variables[i];
        assert(env.variables.contains(v));
        let j = choose|j: int| 0 <= j < env.variables.len() && env.variables[j] == v;
        assert(assignment_free(env.variables[j].definition.orig));
    }
}

/// An environment without assignments stays one where a function is entered
/// whose parameters are bound to bindings without assignments.
pub proof fn lemma_plain_enter(
    env: RuntimeView,
    parameters: Seq<Seq<char>>,
    bindings: Seq<RuntimeExpressionView>,
)
    requires
        plain_environment(env),
        bindings_assignment_free(bindings),
        parameters.len() <= bindings.len(),
    ensures
        plain_environment(enter(env, parameters, bindings)),
{
    lemma_plain_leave(env);
    let entered = enter(env, parameters, bindings);
    let kept = without_parameters(env.variables);
    assert forall|i: int| 0 <= i < entered.variables.len() implies assignment_free(
        (#[trigger] entered.variables[i]).definition.orig,
    ) by {
        if i < kept.len() {
            assert(entered.variables[i] == leave(env).variables[i]);
        } else {
            assert(entered.variables[i].definition == bindings[i - kept.len()]);
        }
    }
}

/// What is settled twice is settled.
pub proof fn lemma_settled_twice(first: RuntimeView, second: RuntimeView, third: RuntimeView)
    requires
        settled(first, second),
        settled(second, third),
    ensures
        settled(first, third),
{
    lemma_leave_twice(first);
}

/// The evaluation of an expression without assignments in an environment
/// without assignments and caches changes nothing but, at most, removes the
/// parameters.
pub proof fn lemma_eval_settles(expression: ExpressionView, env: RuntimeView, depth: nat)
    requires
        plain_environment(env),
        assignment_free(expression),
        eval(expression, env, depth) matches Some(Ok(_)),
    ensures
        settled(env, eval(expression, env, depth)->0->Ok_0.1),
    decreases depth, 0int, 0int,
{
    let rest = (depth - 1) as nat;
    match expression {
        ExpressionView::NumberValue { value } => {},
        ExpressionView::VariableAccess { variable } => {
            match variable_index(env.variables, variable) {
                None => {},
                Some(i) => {
                    lemma_variable_index(env.variables, variable);
                    lemma_eval_runtime_settles(env.variables[i].definition, env, rest);
                },
            }
        },
        ExpressionView::Pointer { to } => {
            lemma_eval_runtime_settles(wrap(expression), env, rest);
        },
        ExpressionView::Math { var1, var2, math } => {
            lemma_eval_runtime_settles(wrap(*var1), env, rest);
            match eval_runtime(wrap(*var1), env, rest) {
                Some(Ok((a, env1))) => {
                    lemma_plain_leave(env);
                    lemma_eval_runtime_settles(wrap(*var2), env1, rest);
                    match eval_runtime(wrap(*var2), env1, rest) {
                        Some(Ok((b, env2))) => {
                            lemma_settled_twice(env, env1, env2);
                        },
                        _ => {},
                    }
                },
                _ => {},
            }
        },
        ExpressionView::FunctionInvocation { function, arguments } => {
            assert(bindings_assignment_free(wrap_all(arguments))) by {
                assert forall|i: int| 0 <= i < wrap_all(arguments).len() implies assignment_free(
                    (#[trigger] wrap_all(arguments)[i]).orig,
                ) by {
                    assert(wrap_all(arguments)[i].orig == arguments[i]);
                }
            }
            lemma_call_settles(function, wrap_all(arguments), env, rest);
        },
        ExpressionView::VariableAssignment { variable, value } => {},
        ExpressionView::Empty | ExpressionView::External => {},
    }
}

/// The evaluation of a binding without assignments in an environment
/// without assignments and caches changes nothing but, at most, removes the
/// parameters.
pub proof fn lemma_eval_runtime_settles(binding: RuntimeExpressionView, env: RuntimeView, depth: nat)
    requires
        plain_environment(env),
        assignment_free(binding.orig),
        eval_runtime(binding, env, depth) matches Some(Ok(_)),
    ensures
        settled(env, eval_runtime(binding, env, depth)->0->Ok_0.1),
    decreases depth, 0int, 0int,
{
    let rest = (depth - 1) as nat;
    if binding.is_pointer {
        match binding.pointer_to {
            None => {},
            Some(target) => match variable_index(env.variables, target) {
                None => {},
                Some(i) => {
                    lemma_variable_index(env.variables, target);
                    lemma_eval_runtime_settles(env.variables[i].definition, env, rest);
                },
            },
        }
    } else {
        lemma_eval_settles(binding.orig, env, rest);
    }
}

/// The binding of arguments without assignments in an environment without
/// assignments and caches changes nothing but, at most, removes the
/// parameters, and gives bindings without assignments.
pub proof fn lemma_bind_arguments_settles(
    args: Seq<RuntimeExpressionView>,
    n: nat,
    env: RuntimeView,
    depth: nat,
)
    requires
        plain_environment(env),
        bindings_assignment_free(args),
        n <= args.len(),
        bind_arguments(args, n, env, depth) matches Some(Ok(_)),
    ensures
        settled(env, bind_arguments(args, n, env, depth)->0->Ok_0.1),
        bindings_assignment_free(bind_arguments(args, n, env, depth)->0->Ok_0.0),
        bind_arguments(args, n, env, depth)->0->Ok_0.0.len() == n,
    decreases depth, 1int, n,
{
    if n > 0 {
        lemma_bind_arguments_settles(args, (n - 1) as nat, env, depth);
        match bind_arguments(args, (n - 1) as nat, env, depth) {
            Some(Ok((bindings, env1))) => {
                let arg = args[n - 1];
                lemma_plain_leave(env);
                if !arg.is_pointer {
                    lemma_eval_settles(arg.orig, env1, (depth - 1) as nat);
                    match eval(arg.orig, env1, (depth - 1) as nat) {
                        Some(Ok((value, env2))) => {
                            lemma_settled_twice(env, env1, env2);
                        },
                        _ => {},
                    }
                }
            },
            _ => {},
        }
    }
}

/// A call of a function without assignments and cache in an environment
/// without assignments and caches changes nothing but, at most, removes
/// the parameters.
pub proof fn lemma_invoke_settles(
    function: RuntimeFunctionView,
    args: Seq<RuntimeExpressionView>,
    env: RuntimeView,
    depth: nat,
)
    requires
        plain_environment(env),
        bindings_assignment_free(args),
        !function.cached,
        assignment_free(function.definition.orig),
        function.parameters.len() <= args.len(),
        invoke(function, args, env, depth) matches Some(Ok(_)),
    ensures
        settled(env, invoke(function, args, env, depth)->0->Ok_0.1),
    decreases depth, 2int, 0int,
{
    lemma_bind_arguments_settles(args, args.len(), env, depth);
    match bind_arguments(args, args.len(), env, depth) {
        Some(Ok((bindings, env1))) => {
            lemma_plain_leave(env);
            lemma_plain_enter(env1, function.parameters, bindings);
            let entered = enter(env1, function.parameters, bindings);
            lemma_eval_runtime_settles(function.definition, entered, (depth - 1) as nat);
            match eval_runtime(function.definition, entered, (depth - 1) as nat) {
                Some(Ok((result, env2))) => {
                    lemma_leave_twice(entered);
                    lemma_leave_after_enter(env1, function.parameters, bindings);
                    lemma_leave_twice(env);
                },
                _ => {},
            }
        },
        _ => {},
    }
}

/// A call by name in an environment without assignments and caches, with
/// arguments without assignments, changes nothing but, at most, removes the
/// parameters.
pub proof fn lemma_call_settles(
    name: Seq<char>,
    args: Seq<RuntimeExpressionView>,
    env: RuntimeView,
    depth: nat,
)
    requires
        plain_environment(env),
        bindings_assignment_free(args),
        call(name, args, env, depth) matches Some(Ok(_)),
    ensures
        settled(env, call(name, args, env, depth)->0->Ok_0.1),
    decreases depth, 3int, 0int,
{
    match function_index(env.functions, name, args.len()) {
        Some(i) => {
            lemma_function_index(env.functions, name, args.len());
            lemma_invoke_settles(env.functions[i], args, env, depth);
        },
        None => {},
    }
}

/// An expression without assignments, evaluated where nothing is assigned
/// and nothing cached, leaves the environment as it found it: evaluated
/// again, it gives the same value, and leaves the environment the same
/// again.
pub proof fn lemma_evaluation_repeats(expression: ExpressionView, env: RuntimeView, depth: nat)
    requires
        plain_environment(env),
        forall|i: int| 0 <= i < env.variables.len() ==> !(#[trigger] env.variables[i]).function_argument,
        assignment_free(expression),
        eval(expression, env, depth) matches Some(Ok(_)),
    ensures
        eval(expression, env, depth)->0->Ok_0.1 == env,
        eval(expression, eval(expression, env, depth)->0->Ok_0.1, depth) == eval(
            expression,
            env,
            depth,
        ),
{
    lemma_eval_settles(expression, env, depth);
    lemma_without_parameters_fixed(env.variables);
}

/// The environment `env` with the variable at place `j` bound to `value`.
pub open spec fn with_value(env: RuntimeView, j: int, value: int) -> RuntimeView {
    RuntimeView {
        variables: env.variables.update(
            j,
            RuntimeVariableView { definition: value_binding(value), ..env.variables[j] },
        ),
        ..env
    }
}

/// A function that assigns a value to its parameter, called with a
/// reference to a variable of the program, changes that variable: the call
/// gives the value, the variable is then bound to it, the parameter is
/// gone, and everything else is as it was.
pub proof fn lemma_reference_parameter_is_assigned(
    function: RuntimeFunctionView,
    parameter: Seq<char>,
    target: Seq<char>,
    value: int,
    env: RuntimeView,
    depth: nat,
)
    requires
        depth >= 5,
        !function.cached,
        function.parameters == seq![parameter],
        function.definition == plain_binding(
            ExpressionView::VariableAssignment {
                variable: parameter,
                value: Box::new(ExpressionView::NumberValue { value }),
            },
        ),
        forall|i: int| 0 <= i < env.variables.len() ==> !(#[trigger] env.variables[i]).function_argument,
        variable_index(env.variables, parameter) is None,
        variable_index(env.variables, target) is Some,
        !env.variables[variable_index(env.variables, target)->0].definition.is_pointer,
        !env.variables[variable_index(env.variables, target)->0].constant,
    ensures
        invoke(function, seq![wrap(ExpressionView::Pointer { to: target })], env, depth) == Some(
            Ok::<(int, RuntimeView), RuntimeError>(
                (value, with_value(env, variable_index(env.variables, target)->0, value)),
            ),
        ),
{
    let j = variable_index(env.variables, target)->0;
    let n = env.variables.len() as int;
    let arg = wrap(ExpressionView::Pointer { to: target });
    let args = seq![arg];
    let binding = reference_binding(target);
    let bindings = seq![binding];
    let held = RuntimeVariableView {
        name: parameter,
        definition: binding,
        function_argument: true,
        constant: false,
    };
    let number = ExpressionView::NumberValue { value };
    let body = ExpressionView::VariableAssignment { variable: parameter, value: Box::new(number) };
    lemma_variable_index(env.variables, target);
    lemma_variable_index(env.variables, parameter);
    // the argument is bound to the variable
    assert(reference_to(env.variables, target) == Ok::<RuntimeExpressionView, RuntimeError>(binding));
    assert(bind_arguments(args, 0, env, depth) == Some(
        Ok::<(Seq<RuntimeExpressionView>, RuntimeView), RuntimeError>((Seq::empty(), env)),
    ));
    assert(Seq::<RuntimeExpressionView>::empty().push(binding) =~= bindings);
    assert(bind_arguments(args, 1, env, depth) == Some(
        Ok::<(Seq<RuntimeExpressionView>, RuntimeView), RuntimeError>((bindings, env)),
    ));
    // the body runs among the variables and the parameter
    let entered = enter(env, function.parameters, bindings);
    lemma_without_parameters_fixed(env.variables);
    assert(parameter_variables(function.parameters, bindings) =~= seq![held]);
    assert(entered.variables =~= env.variables + seq![held]);
    assert(entered.variables[n] == held);
    assert forall|i: int| 0 <= i < n implies (#[trigger] entered.variables[i]) == env.variables[i] by {}
    lemma_variable_index_is(entered.variables, parameter, n);
    lemma_variable_index_is(entered.variables, target, j);
    // the assignment goes through the parameter to the variable
    let changed = with_value(entered, j, value);
    assert(assign(target, value, entered, (depth - 4) as nat) == Ok::<RuntimeView, RuntimeError>(
        changed,
    ));
    assert(assign(parameter, value, entered, (depth - 3) as nat) == Ok::<RuntimeView, RuntimeError>(
        changed,
    ));
    assert(eval(number, entered, (depth - 4) as nat) == Some(
        Ok::<(int, RuntimeView), RuntimeError>((value, entered)),
    ));
    assert(eval_runtime(wrap(number), entered, (depth - 3) as nat) == Some(
        Ok::<(int, RuntimeView), RuntimeError>((value, entered)),
    ));
    assert(eval(body, entered, (depth - 2) as nat) == Some(
        Ok::<(int, RuntimeView), RuntimeError>((value, changed)),
    ));
    assert(eval_runtime(function.definition, entered, (depth - 1) as nat) == Some(
        Ok::<(int, RuntimeView), RuntimeError>((value, changed)),
    ));
    // the parameter is removed, the variable stays changed
    let kept = with_value(env, j, value).variables;
    let keep = |v: RuntimeVariableView| !v.function_argument;
    assert(changed.variables =~= kept + seq![held]);
    Seq::filter_distributes_over_add(kept, seq![held], keep);
    lemma_without_parameters_fixed(kept);
    assert(seq![held].filter(keep) =~= Seq::empty()) by {
        reveal(Seq::filter);
        assert(seq![held].drop_last() =~= Seq::<RuntimeVariableView>::empty());
    }
    assert(kept + Seq::<RuntimeVariableView>::empty() =~= kept);
    assert(leave(changed) == with_value(env, j, value));
}

/// Whether the binding `binding` is one to a value.
pub open spec fn is_value(binding: RuntimeExpressionView) -> bool {
    !binding.is_pointer && binding.pointer_to is None && binding.orig is NumberValue
}

/// Whether every one of the bindings `args` is one to a value.
pub open spec fn are_values(args: Seq<RuntimeExpressionView>) -> bool {
    forall|i: int| 0 <= i < args.len() ==> is_value(#[trigger] args[i])
}

/// Arguments that are values already are bound to themselves, and binding
/// them changes nothing.
pub proof fn lemma_bind_values(args: Seq<RuntimeExpressionView>, n: nat, env: RuntimeView, depth: nat)
    requires
        depth >= 2,
        are_values(args),
        n <= args.len(),
    ensures
        bind_arguments(args, n, env, depth) == Some(
            Ok::<(Seq<RuntimeExpressionView>, RuntimeView), RuntimeError>((args.take(n as int), env)),
        ),
    decreases n,
{
    if n == 0 {
        assert(args.take(0) =~= Seq::empty());
    } else {
        lemma_bind_values(args, (n - 1) as nat, env, depth);
        let arg = args[n - 1];
        assert(is_value(arg));
        let value = arg.orig->NumberValue_value;
        assert(eval(arg.orig, env, (depth - 1) as nat) == Some(
            Ok::<(int, RuntimeView), RuntimeError>((value, env)),
        ));
        assert(value_binding(value) == arg);
        assert(args.take(n - 1).push(arg) =~= args.take(n as int));
    }
}

/// A function that caches its results, called with values for which the
/// environment's function of its name remembers a result, returns that
/// result and changes nothing: its body does not run.
pub proof fn lemma_cached_call_of_values(
    function: RuntimeFunctionView,
    args: Seq<RuntimeExpressionView>,
    env: RuntimeView,
    depth: nat,
)
    requires
        depth >= 2,
        function.cached,
        are_values(args),
        cached_result(env.functions, function.name, function.parameters.len(), args) is Some,
    ensures
        invoke(function, args, env, depth) == Some(
            Ok::<(int, RuntimeView), RuntimeError>(
                (
                    cached_result(env.functions, function.name, function.parameters.len(), args)->0,
                    env,
                ),
            ),
        ),
{
    reveal(has_reference);
    lemma_bind_values(args, args.len(), env, depth);
    assert(args.take(args.len() as int) =~= args);
}

/// A function of the environment that caches its results, called twice in a
/// row with the same values, runs its body at most once: the second call
/// returns what the function then remembers for these values and changes
/// nothing.
pub proof fn lemma_second_call_is_cached(
    function: RuntimeFunctionView,
    args: Seq<RuntimeExpressionView>,
    env: RuntimeView,
    depth: nat,
)
    requires
        depth >= 2,
        function.cached,
        are_values(args),
        function_index(env.functions, function.name, function.parameters.len()) is Some,
        invoke(function, args, env, depth) matches Some(Ok(_)),
    ensures
        ({
            let after = invoke(function, args, env, depth)->0->Ok_0.1;
            let known = cached_result(
                after.functions,
                function.name,
                function.parameters.len(),
                args,
            );
            &&& known is Some
            &&& invoke(function, args, after, depth) == Some(
                Ok::<(int, RuntimeView), RuntimeError>((known->0, after)),
            )
        }),
{
    let after = invoke(function, args, env, depth)->0->Ok_0.1;
    lemma_bind_values(args, args.len(), env, depth);
    assert(args.take(args.len() as int) =~= args);
    lemma_call_is_remembered(function, args, env, depth);
    lemma_cached_call_of_values(function, args, after, depth);
}

} // verus!
