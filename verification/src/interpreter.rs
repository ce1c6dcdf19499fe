//! The evaluator: a tree walk over resolved expressions against an
//! environment that it changes in place.
//!
//! The functions here compute what [`semantics`] says, within the depth that
//! the caller allows; what a function of the host does is up to the host.

use crate::ast::expression_views;
use crate::ast::text_views;
use crate::ast::Expression;
use crate::ast::ExpressionView;
use crate::ast::Function;
use crate::ast::FunctionView;
use crate::ast::MathType;
use crate::ast::Variable;
use crate::ast::VariableView;
use crate::ast::AST;
use crate::error::RuntimeError;
use crate::interpreter::runtime::binding_views;
use crate::interpreter::runtime::cache_view;
use crate::interpreter::runtime::clone_bindings;
use crate::interpreter::runtime::external_views;
use crate::interpreter::runtime::find_external;
use crate::interpreter::runtime::find_runtime_function;
use crate::interpreter::runtime::find_runtime_variable;
use crate::interpreter::runtime::function_index;
use crate::interpreter::runtime::has_external;
use crate::interpreter::runtime::runtime_function_views;
use crate::interpreter::runtime::runtime_variable_views;
use crate::interpreter::runtime::variable_index;
use crate::interpreter::runtime::ExternalRuntimeFunction;
use crate::interpreter::runtime::RuntimeAST;
use crate::interpreter::runtime::RuntimeExpression;
use crate::interpreter::runtime::RuntimeExpressionView;
use crate::interpreter::runtime::RuntimeFunction;
use crate::interpreter::runtime::RuntimeFunctionView;
use crate::interpreter::runtime::RuntimeVariable;
use crate::interpreter::runtime::RuntimeVariableView;
use crate::interpreter::runtime::RuntimeView;
use crate::interpreter::runtime::Tuple;
use crate::interpreter::semantics::apply;
use crate::interpreter::semantics::assign;
use crate::interpreter::semantics::bind_arguments;
use crate::interpreter::semantics::cache_lookup;
use crate::interpreter::semantics::call;
use crate::interpreter::semantics::defined_functions;
use crate::interpreter::semantics::enter;
use crate::interpreter::semantics::eval;
use crate::interpreter::semantics::eval_runtime;
use crate::interpreter::semantics::expression_text;
use crate::interpreter::semantics::has_reference;
use crate::interpreter::semantics::initial_environment;
use crate::interpreter::semantics::invoke;
use crate::interpreter::semantics::joined_texts;
use crate::interpreter::semantics::leave;
use crate::interpreter::semantics::parameter_variables;
use crate::interpreter::semantics::reference_to;
use crate::interpreter::semantics::remember;
use crate::interpreter::semantics::run;
use crate::interpreter::semantics::runtime_function_of;
use crate::interpreter::semantics::runtime_variable_of;
use crate::interpreter::semantics::truth;
use crate::interpreter::semantics::value_binding;
use crate::interpreter::semantics::without_parameters;
use crate::interpreter::semantics::wrap;
use crate::interpreter::semantics::wrap_all;
use crate::interpreter::semantics::Bound;
use crate::interpreter::semantics::Outcome;
use crate::number::Number;
use crate::text::push_text;
use crate::text::text_equals;
use vstd::prelude::*;

pub mod laws;
pub mod runtime;
pub mod semantics;

verus! {

/// The functions that a program calls and does not define. `invoke_external`
/// is handed the name of the function, the arguments of the call as they
/// stand, not evaluated, the environment, and the depth that is left; it may
/// evaluate the arguments and change the environment. It is called only for
/// a name and a number of arguments that the environment lists among the
/// functions of the host.
pub trait ExternalHost {
    /// Calls the function of the host that is named `name`.
    fn invoke_external(
        &mut self,
        name: &str,
        args: Vec<RuntimeExpression>,
        ast: &mut RuntimeAST,
        depth: usize,
    ) -> Result<Number, RuntimeError>
        requires
            has_external(old(ast)@.external_functions, name@, args.len() as nat),
    ;
}

/// Whether the result `r` and the environment `env` are what `expected` says.
/// Nothing is said where `expected` is `None`.
pub open spec fn evaluated_as(r: Result<Number, RuntimeError>, env: RuntimeView, expected: Outcome) -> bool {
    match expected {
        None => true,
        Some(Ok((value, left))) => r is Ok && r->Ok_0@ == value && env == left,
        Some(Err(e)) => r is Err && r->Err_0 == e,
    }
}

/// Whether the bindings `r` and the environment `env` are what `expected`
/// says. Nothing is said where `expected` is `None`.
pub open spec fn bound_as(r: Result<Vec<RuntimeExpression>, RuntimeError>, env: RuntimeView, expected: Bound) -> bool {
    match expected {
        None => true,
        Some(Ok((bindings, left))) => r is Ok && binding_views(r->Ok_0@) == bindings && env == left,
        Some(Err(e)) => r is Err && r->Err_0 == e,
    }
}

/// One as a number for true, zero for false.
fn truth_value(b: bool) -> (r: Number)
    ensures
        r@ == truth(b),
{
    if b {
        Number::from_i64(1)
    } else {
        Number::from_i64(0)
    }
}

/// Applies the operator `math` to the values `a` and `b`.
pub fn apply_math(math: MathType, a: &Number, b: &Number) -> (r: Result<Number, RuntimeError>)
    ensures
        match apply(math, a@, b@) {
            Ok(value) => r is Ok && r->Ok_0@ == value,
            Err(e) => r is Err && r->Err_0 == e,
        },
{
    match math {
        MathType::Add => Ok(a.add(b)),
        MathType::Subtract => Ok(a.sub(b)),
        MathType::Multiply => Ok(a.mul(b)),
        MathType::Divide => match a.checked_div(b) {
            Some(quotient) => Ok(quotient),
            None => Err(RuntimeError::DivisionByZero),
        },
        MathType::Equals => Ok(truth_value(a.equals(b))),
        MathType::NotEquals => Ok(truth_value(!a.equals(b))),
        MathType::BiggerOrEquals => Ok(truth_value(!a.less_than(b))),
        MathType::Bigger => Ok(truth_value(b.less_than(a))),
        MathType::SmallerOrEquals => Ok(truth_value(!b.less_than(a))),
        MathType::Smaller => Ok(truth_value(a.less_than(b))),
        MathType::Pow => match b.to_u32() {
            Some(exponent) => Ok(a.pow(exponent)),
            None => Err(RuntimeError::ExponentOutOfRange),
        },
    }
}

/// The binding of a variable to the value `value`.
fn bind_value(value: Number) -> (r: RuntimeExpression)
    ensures
        r@ == value_binding(value@),
{
    RuntimeExpression { orig: Expression::NumberValue { value }, is_pointer: false, pointer_to: None }
}

/// Whether the two lists hold bindings with the same views, in order.
fn bindings_equal(left: &Vec<RuntimeExpression>, right: &Vec<RuntimeExpression>) -> (r: bool)
    ensures
        r == (binding_views(left@) == binding_views(right@)),
{
    if left.len() != right.len() {
        assert(binding_views(left@).len() != binding_views(right@).len());
        return false;
    }
    let mut i: usize = 0;
    while i < left.len()
        invariant
            i <= left.len(),
            left.len() == right.len(),
            forall|j: int| 0 <= j < i ==> left@[j]@ == right@[j]@,
        decreases left.len() - i,
    {
        if !left[i].equals(&right[i]) {
            assert(binding_views(left@)[i as int] != binding_views(right@)[i as int]);
            return false;
        }
        i += 1;
    }
    assert(binding_views(left@) =~= binding_views(right@));
    true
}

/// The variables among `variables` that are no parameters.
fn drop_parameters(variables: &Vec<RuntimeVariable>) -> (r: Vec<RuntimeVariable>)
    ensures
        runtime_variable_views(r@) == without_parameters(runtime_variable_views(variables@)),
{
    let ghost views = runtime_variable_views(variables@);
    let mut kept: Vec<RuntimeVariable> = Vec::new();
    let mut i: usize = 0;
    proof {
        reveal(Seq::filter);
        assert(views.take(0) =~= Seq::empty());
        assert(runtime_variable_views(kept@) =~= Seq::empty());
    }
    while i < variables.len()
        invariant
            i <= variables.len(),
            views == runtime_variable_views(variables@),
            runtime_variable_views(kept@) == without_parameters(views.take(i as int)),
        decreases variables.len() - i,
    {
        let ghost before = runtime_variable_views(kept@);
        if !variables[i].function_argument {
            kept.push(variables[i].clone());
            assert(runtime_variable_views(kept@) =~= before.push(views[i as int]));
        }
        i += 1;
        proof {
            let now = views.take(i as int);
            assert(now.drop_last() =~= views.take(i - 1));
            assert(now.last() == views[i - 1]);
            reveal(Seq::filter);
        }
    }
    assert(views.take(i as int) =~= views);
    kept
}

/// Looks up what `cache` holds for the bindings `key`.
#[verifier::loop_isolation(false)]
fn lookup_cache(cache: &Vec<Tuple<Vec<RuntimeExpression>, Number>>, key: &Vec<RuntimeExpression>) -> (r:
    Option<Number>)
    ensures
        match cache_lookup(cache_view(cache@), binding_views(key@)) {
            Some(result) => r is Some && r->0@ == result,
            None => r is None,
        },
{
    let ghost entries = cache_view(cache@);
    let mut i: usize = 0;
    proof {
        reveal(cache_lookup);
    }
    while i < cache.len()
        invariant
            i <= cache.len(),
            entries == cache_view(cache@),
            forall|j: int| 0 <= j < i ==> (#[trigger] entries[j]).a != binding_views(key@),
        decreases cache.len() - i,
    {
        if bindings_equal(&cache[i].a, key) {
            assert(entries[i as int].a == binding_views(key@));
            assert(entries[i as int].b == cache[i as int].b@);
            return Some(cache[i].b.clone());
        }
        i += 1;
    }
    None
}

/// A failure or an unknown outcome among the first `n` arguments is that of
/// every longer run.
proof fn lemma_bind_arguments_stops(
    args: Seq<RuntimeExpressionView>,
    n: nat,
    m: nat,
    env: RuntimeView,
    depth: nat,
)
    requires
        n <= m,
        !(bind_arguments(args, n, env, depth) matches Some(Ok(_))),
    ensures
        bind_arguments(args, m, env, depth) == bind_arguments(args, n, env, depth),
    decreases m - n,
{
    if n < m {
        lemma_bind_arguments_stops(args, n, (m - 1) as nat, env, depth);
    }
}

/// A failure or an unknown outcome among the first `n` expressions is that
/// of every longer run.
proof fn lemma_run_stops(expressions: Seq<ExpressionView>, n: nat, m: nat, env: RuntimeView, depth: nat)
    requires
        n <= m,
        !(run(expressions, n, env, depth) matches Some(Ok(_))),
    ensures
        run(expressions, m, env, depth) == run(expressions, n, env, depth),
    decreases m - n,
{
    if n < m {
        lemma_run_stops(expressions, n, (m - 1) as nat, env, depth);
    }
}

impl ExternalRuntimeFunction {
    /// The host's function named `name` with `parameters` parameters.
    pub fn create(name: &str, parameters: usize) -> (r: ExternalRuntimeFunction)
        ensures
            r.name@ == name@,
            r.parameters == parameters,
    {
        ExternalRuntimeFunction { name: name.to_owned(), parameters }
    }

    /// The name of the function.
    pub fn name(&self) -> (r: &String)
        ensures
            r == &self.name,
    {
        &self.name
    }

    /// The number of parameters of the function.
    pub fn parameters(&self) -> (r: &usize)
        ensures
            r == &self.parameters,
    {
        &self.parameters
    }

    /// Calls the function: hands the host its name, the arguments `args`
    /// as they stand, the environment and the depth that is left.
    pub fn invoke<H: ExternalHost>(
        &self,
        args: Vec<RuntimeExpression>,
        ast: &mut RuntimeAST,
        host: &mut H,
        depth: usize,
    ) -> Result<Number, RuntimeError>
        requires
            has_external(old(ast)@.external_functions, self.name@, args.len() as nat),
    {
        host.invoke_external(self.name.as_str(), args, ast, depth)
    }
}

impl RuntimeExpression {
    /// The binding to no expression.
    pub fn empty() -> (r: Self)
        ensures
            r@ == wrap(ExpressionView::Empty),
    {
        RuntimeExpression { orig: Expression::Empty, is_pointer: false, pointer_to: None }
    }

    /// The binding that stands for the expression `orig`: a reference where
    /// `orig` is one.
    pub fn from(orig: Expression, ast: &RuntimeAST) -> (r: Self)
        ensures
            r@ == wrap(orig@),
    {
        let pointer_to = match &orig {
            Expression::Pointer { to } => Some(to.clone()),
            _ => None,
        };
        RuntimeExpression { is_pointer: pointer_to.is_some(), orig, pointer_to }
    }

    /// The expression of the binding.
    pub fn orig(&self) -> (r: &Expression)
        ensures
            r == &self.orig,
    {
        &self.orig
    }

    /// Whether the two bindings have the same view.
    pub fn equals(&self, other: &RuntimeExpression) -> (r: bool)
        ensures
            r == (self@ == other@),
    {
        let same_target = match &self.pointer_to {
            Some(to) => match &other.pointer_to {
                Some(other_to) => text_equals(to.as_str(), other_to.as_str()),
                None => false,
            },
            None => other.pointer_to.is_none(),
        };
        same_target && self.is_pointer == other.is_pointer && self.orig.equals(&other.orig)
    }

    /// Evaluates the binding: the variable that it refers to, or its
    /// expression.
    pub fn execute<H: ExternalHost>(&self, ast: &mut RuntimeAST, host: &mut H, depth: usize) -> (r:
        Result<Number, RuntimeError>)
        ensures
            evaluated_as(r, final(ast)@, eval_runtime(self@, old(ast)@, depth as nat)),
        decreases depth, 0int, 0int,
    {
        if depth == 0 {
            return Err(RuntimeError::DepthExceeded);
        }
        if self.is_pointer {
            let target = match &self.pointer_to {
                Some(target) => target,
                None => {
                    return Err(RuntimeError::DanglingReference);
                },
            };
            match find_runtime_variable(&ast.variables, target.as_str()) {
                Some(i) => {
                    let variable = ast.variables[i].clone();
                    assert(ast@.variables[i as int] == variable@);
                    variable.get_value(ast, host, depth - 1)
                },
                None => Err(RuntimeError::VariableNotFound),
            }
        } else {
            RuntimeExpression::execute_expr(&self.orig, ast, host, depth - 1)
        }
    }

    /// Evaluates the expression `expr` in `ast`, within `depth` nested
    /// evaluations.
    #[verifier::loop_isolation(false)]
    pub fn execute_expr<H: ExternalHost>(
        expr: &Expression,
        ast: &mut RuntimeAST,
        host: &mut H,
        depth: usize,
    ) -> (r: Result<Number, RuntimeError>)
        ensures
            evaluated_as(r, final(ast)@, eval(expr@, old(ast)@, depth as nat)),
        decreases depth, 0int, 0int,
    {
        if depth == 0 {
            return Err(RuntimeError::DepthExceeded);
        }
        match expr {
            Expression::NumberValue { value } => Ok(value.clone()),
            Expression::VariableAccess { variable } => {
                match find_runtime_variable(&ast.variables, variable.as_str()) {
                    Some(i) => {
                        let found = ast.variables[i].clone();
                        assert(ast@.variables[i as int] == found@);
                        found.get_value(ast, host, depth - 1)
                    },
                    None => Err(RuntimeError::VariableNotFound),
                }
            },
            Expression::Pointer { to } => {
                let binding = RuntimeExpression::from(expr.clone(), ast);
                binding.execute(ast, host, depth - 1)
            },
            Expression::Math { var1, var2, math } => {
                let left = RuntimeExpression::from((**var1).clone(), ast);
                let right = RuntimeExpression::from((**var2).clone(), ast);
                RuntimeExpression::run_math(*math, left, right, ast, host, depth - 1)
            },
            Expression::FunctionInvocation { function, arguments } => {
                let mut args: Vec<RuntimeExpression> = Vec::new();
                let mut i: usize = 0;
                while i < arguments.len()
                    invariant
                        i <= arguments.len(),
                        args.len() == i,
                        forall|j: int| 0 <= j < i ==> (#[trigger] args@[j])@ == wrap(arguments@[j]@),
                    decreases arguments.len() - i,
                {
                    args.push(RuntimeExpression::from(arguments[i].clone(), ast));
                    i += 1;
                }
                assert(binding_views(args@) =~= wrap_all(expression_views(arguments@)));
                ast.invoke_function(function.as_str(), args, host, depth - 1)
            },
            Expression::VariableAssignment { variable, value } => {
                let binding = RuntimeExpression::from((**value).clone(), ast);
                let val = match binding.execute(ast, host, depth - 1) {
                    Ok(val) => val,
                    Err(e) => {
                        return Err(e);
                    },
                };
                let target = RuntimeVariable {
                    name: variable.clone(),
                    definition: RuntimeExpression::empty(),
                    function_argument: false,
                    constant: false,
                };
                ast.reassign_variable(target, val, depth - 1)
            },
            Expression::Empty | Expression::External => Err(RuntimeError::NotExecutable),
        }
    }

    /// Evaluates `var1`, then `var2`, and applies the operator `math` to
    /// their values.
    pub fn run_math<H: ExternalHost>(
        math: MathType,
        var1: RuntimeExpression,
        var2: RuntimeExpression,
        ast: &mut RuntimeAST,
        host: &mut H,
        depth: usize,
    ) -> (r: Result<Number, RuntimeError>)
        ensures
            evaluated_as(
                r,
                final(ast)@,
                match eval_runtime(var1@, old(ast)@, depth as nat) {
                    None => None,
                    Some(Err(e)) => Some(Err(e)),
                    Some(Ok((a, env1))) => match eval_runtime(var2@, env1, depth as nat) {
                        None => None,
                        Some(Err(e)) => Some(Err(e)),
                        Some(Ok((b, env2))) => match apply(math, a, b) {
                            Err(e) => Some(Err(e)),
                            Ok(value) => Some(Ok((value, env2))),
                        },
                    },
                },
            ),
        decreases depth, 0int, 1int,
    {
        let a = match var1.execute(ast, host, depth) {
            Ok(a) => a,
            Err(e) => {
                return Err(e);
            },
        };
        let b = match var2.execute(ast, host, depth) {
            Ok(b) => b,
            Err(e) => {
                return Err(e);
            },
        };
        apply_math(math, &a, &b)
    }

    /// The text of the expression `expr`, as a program would write it, with
    /// each operand of an operator in parentheses.
    #[verifier::loop_isolation(false)]
    pub fn expr_to_string(expr: &Expression) -> (r: String)
        ensures
            r@ == expression_text(expr@),
        decreases expr,
    {
        let mut out = String::new();
        match expr {
            Expression::Empty => {
                push_text(&mut out, "none");
            },
            Expression::External => {
                push_text(&mut out, "external");
            },
            Expression::NumberValue { value } => {
                let text = value.to_string();
                push_text(&mut out, text.as_str());
            },
            Expression::VariableAccess { variable } => {
                push_text(&mut out, variable.as_str());
            },
            Expression::Math { var1, var2, math } => {
                let left = RuntimeExpression::expr_to_string(var1);
                let right = RuntimeExpression::expr_to_string(var2);
                let symbol = math.operator();
                push_text(&mut out, "(");
                push_text(&mut out, left.as_str());
                push_text(&mut out, ") ");
                push_text(&mut out, symbol.as_str());
                push_text(&mut out, " (");
                push_text(&mut out, right.as_str());
                push_text(&mut out, ")");
            },
            Expression::FunctionInvocation { function, arguments } => {
                push_text(&mut out, function.as_str());
                push_text(&mut out, "(");
                let ghost head = out@;
                let ghost views = expression_views(arguments@);
                let mut i: usize = 0;
                assert(views.take(0) =~= Seq::empty());
                assert(out@ =~= head + joined_texts(views.take(0)));
                while i < arguments.len()
                    invariant
                        i <= arguments.len(),
                        out@ == head + joined_texts(views.take(i as int)),
                    decreases arguments.len() - i,
                {
                    let text = RuntimeExpression::expr_to_string(&arguments[i]);
                    if i > 0 {
                        push_text(&mut out, ", ");
                    }
                    push_text(&mut out, text.as_str());
                    i += 1;
                    proof {
                        let now = views.take(i as int);
                        assert(now.drop_last() =~= views.take(i - 1));
                        assert(now.last() == views[i - 1]);
                        assert(now.len() == 1 ==> now[0] == now.last());
                        assert(out@ =~= head + joined_texts(now));
                    }
                }
                assert(views.take(i as int) =~= views);
                push_text(&mut out, ")");
            },
            Expression::VariableAssignment { variable, value } => {
                let text = RuntimeExpression::expr_to_string(value);
                push_text(&mut out, variable.as_str());
                push_text(&mut out, " = ");
                push_text(&mut out, text.as_str());
            },
            Expression::Pointer { to } => {
                push_text(&mut out, "*");
                push_text(&mut out, to.as_str());
            },
        }
        assert(out@ =~= expression_text(expr@));
        out
    }
}

impl RuntimeVariable {
    /// The variable `orig` as a running program holds it, bound to what
    /// stands for its definition.
    pub fn from(orig: Variable, ast: &RuntimeAST) -> (r: Self)
        ensures
            r@ == (RuntimeVariableView {
                definition: wrap(orig@.definition),
                ..runtime_variable_of(orig@)
            }),
    {
        RuntimeVariable {
            name: orig.name,
            definition: RuntimeExpression::from(orig.definition, ast),
            function_argument: false,
            constant: orig.constant,
        }
    }

    /// The variable `orig` as a running program holds it, bound to its
    /// definition as it stands.
    pub fn from_raw(orig: Variable) -> (r: Self)
        ensures
            r@ == runtime_variable_of(orig@),
    {
        RuntimeVariable {
            name: orig.name,
            definition: RuntimeExpression {
                orig: orig.definition,
                is_pointer: false,
                pointer_to: None,
            },
            function_argument: false,
            constant: orig.constant,
        }
    }

    /// Whether the two variables have the same view.
    pub fn equals(&self, other: &RuntimeVariable) -> (r: bool)
        ensures
            r == (self@ == other@),
    {
        self.function_argument == other.function_argument && self.constant == other.constant
            && self.definition.equals(&other.definition) && text_equals(
            self.name.as_str(),
            other.name.as_str(),
        )
    }

    /// The value of the variable: what it is bound to, evaluated.
    pub fn get_value<H: ExternalHost>(&self, ast: &mut RuntimeAST, host: &mut H, depth: usize) -> (r:
        Result<Number, RuntimeError>)
        ensures
            evaluated_as(r, final(ast)@, eval_runtime(self@.definition, old(ast)@, depth as nat)),
        decreases depth, 0int, 1int,
    {
        self.definition.execute(ast, host, depth)
    }
}

impl RuntimeFunction {
    /// The function `orig` as a running program holds it: it remembers
    /// nothing yet.
    pub fn from(orig: Function) -> (r: Self)
        ensures
            r@ == runtime_function_of(orig@),
    {
        let function = RuntimeFunction {
            name: orig.name,
            definition: RuntimeExpression {
                orig: orig.definition,
                is_pointer: false,
                pointer_to: None,
            },
            parameters: orig.parameters,
            cached: orig.cached,
            cache: Vec::new(),
        };
        assert(function@.cache =~= Seq::empty());
        function
    }

    /// Calls this function with the arguments `args` in `ast`. Results are
    /// remembered by, and looked up in, the function of this name and this
    /// number of parameters that `ast` holds. A function that caches its
    /// results refuses a reference among `args` before it evaluates or
    /// changes anything.
    #[verifier::loop_isolation(false)]
    pub fn invoke<H: ExternalHost>(
        &self,
        args: Vec<RuntimeExpression>,
        ast: &mut RuntimeAST,
        host: &mut H,
        depth: usize,
    ) -> (r: Result<Number, RuntimeError>)
        requires
            self.parameters.len() <= args.len(),
        ensures
            evaluated_as(r, final(ast)@, invoke(self@, binding_views(args@), old(ast)@, depth as nat)),
            self.cached && has_reference(binding_views(args@)) ==> final(ast)@ == old(ast)@,
        decreases depth, 2int, 0int,
    {
        let ghost given = binding_views(args@);
        proof {
            reveal(has_reference);
        }
        if self.cached {
            let mut k: usize = 0;
            while k < args.len()
                invariant
                    k <= args.len(),
                    forall|j: int| 0 <= j < k ==> !(#[trigger] given[j]).is_pointer,
                decreases args.len() - k,
            {
                if args[k].is_pointer {
                    assert(given[k as int].is_pointer);
                    return Err(RuntimeError::ReferenceInCachedCall);
                }
                k += 1;
            }
        }
        let bindings = match ast.bind_arguments(&args, host, depth) {
            Ok(bindings) => bindings,
            Err(e) => {
                return Err(e);
            },
        };
        if self.cached {
            match find_runtime_function(&ast.functions, self.name.as_str(), self.parameters.len()) {
                Some(j) => {
                    assert(ast@.functions[j as int].cache == cache_view(ast.functions[j as int].cache@));
                    match lookup_cache(&ast.functions[j].cache, &bindings) {
                        Some(result) => {
                            return Ok(result);
                        },
                        None => {},
                    }
                },
                None => {},
            }
        }
        if depth == 0 {
            return Err(RuntimeError::DepthExceeded);
        }
        let key = clone_bindings(&bindings);
        ast.enter_function(&self.parameters, bindings);
        let result = match self.definition.execute(ast, host, depth - 1) {
            Ok(result) => result,
            Err(e) => {
                return Err(e);
            },
        };
        ast.leave_function();
        if self.cached {
            ast.remember_result(self.name.as_str(), self.parameters.len(), key, result.clone());
        }
        Ok(result)
    }
}

impl RuntimeAST {
    /// The environment in which the program `ast` starts: its variables, the
    /// functions that it defines itself, and the host's functions.
    pub fn create(ast: AST, external_functions: Vec<ExternalRuntimeFunction>) -> (r: Self)
        ensures
            r@ == initial_environment(ast@, external_views(external_functions@)),
    {
        let ghost given_variables = ast@.variables;
        let ghost given_functions = ast@.functions;
        let mut variables: Vec<RuntimeVariable> = Vec::new();
        let mut i: usize = 0;
        while i < ast.variables.len()
            invariant
                i <= ast.variables.len(),
                variables.len() == i,
                forall|j: int|
                    0 <= j < i ==> (#[trigger] variables@[j])@ == runtime_variable_of(
                        ast.variables@[j]@,
                    ),
            decreases ast.variables.len() - i,
        {
            variables.push(RuntimeVariable::from_raw(ast.variables[i].clone()));
            i += 1;
        }
        assert(runtime_variable_views(variables@) =~= given_variables.map_values(
            |v: VariableView| runtime_variable_of(v),
        ));
        let mut functions: Vec<RuntimeFunction> = Vec::new();
        let mut k: usize = 0;
        proof {
            reveal(Seq::filter);
            assert(given_functions.take(0) =~= Seq::empty());
            assert(runtime_function_views(functions@) =~= defined_functions(
                given_functions.take(0),
            ).map_values(|f: FunctionView| runtime_function_of(f)));
        }
        while k < ast.functions.len()
            invariant
                k <= ast.functions.len(),
                given_functions == ast@.functions,
                runtime_function_views(functions@) == defined_functions(
                    given_functions.take(k as int),
                ).map_values(|f: FunctionView| runtime_function_of(f)),
            decreases ast.functions.len() - k,
        {
            let ghost before = runtime_function_views(functions@);
            let ghost kept = defined_functions(given_functions.take(k as int));
            if !ast.functions[k].definition.is_external() {
                let function = RuntimeFunction::from(ast.functions[k].clone());
                functions.push(function);
                assert(runtime_function_views(functions@) =~= before.push(function@));
            }
            k += 1;
            proof {
                let now = given_functions.take(k as int);
                assert(now.drop_last() =~= given_functions.take(k - 1));
                assert(now.last() == given_functions[k - 1]);
                reveal(Seq::filter);
                if !(given_functions[k - 1].definition is External) {
                    assert(defined_functions(now) =~= kept.push(given_functions[k - 1]));
                    assert(defined_functions(now).map_values(|f: FunctionView| runtime_function_of(f))
                        =~= before.push(runtime_function_of(given_functions[k - 1])));
                } else {
                    assert(defined_functions(now) =~= kept);
                }
            }
        }
        assert(given_functions.take(k as int) =~= given_functions);
        RuntimeAST { variables, functions, external_functions }
    }

    /// The environment in which the body of `func` runs when it is called
    /// with the arguments `args` in `orig`: each argument is bound as
    /// [`RuntimeAST::bind_arguments`] binds it, evaluated in `orig` where it
    /// is no reference, and the variables are then those of `orig` that are
    /// no parameters, and the parameters of `func`.
    pub fn function_ast<H: ExternalHost>(
        orig: RuntimeAST,
        func: RuntimeFunction,
        args: Vec<RuntimeExpression>,
        host: &mut H,
        depth: usize,
    ) -> (r: Result<RuntimeAST, RuntimeError>)
        requires
            func.parameters.len() <= args.len(),
        ensures
            match bind_arguments(binding_views(args@), args.len() as nat, orig@, depth as nat) {
                None => true,
                Some(Ok((bindings, env))) => r is Ok && r->Ok_0@ == enter(
                    env,
                    func@.parameters,
                    bindings,
                ),
                Some(Err(e)) => r is Err && r->Err_0 == e,
            },
    {
        let mut runtime = orig;
        let bindings = match runtime.bind_arguments(&args, host, depth) {
            Ok(bindings) => bindings,
            Err(e) => {
                return Err(e);
            },
        };
        runtime.enter_function(&func.parameters, bindings);
        Ok(runtime)
    }

    /// The functions of the program.
    pub fn get_functions(&self) -> (r: &Vec<RuntimeFunction>)
        ensures
            r == &self.functions,
    {
        &self.functions
    }

    /// The variables of the program.
    pub fn get_variables(&self) -> (r: &Vec<RuntimeVariable>)
        ensures
            r == &self.variables,
    {
        &self.variables
    }

    /// Removes every function that is named `name` or has `params`
    /// parameters.
    pub fn delete_function(&mut self, name: &str, params: usize)
        ensures
            final(self)@ == (RuntimeView {
                functions: old(self)@.functions.filter(
                    |f: RuntimeFunctionView| f.name != name@ && f.parameters.len() != params,
                ),
                ..old(self)@
            }),
    {
        let ghost views = runtime_function_views(self.functions@);
        let ghost keep = |f: RuntimeFunctionView| f.name != name@ && f.parameters.len() != params;
        let mut kept: Vec<RuntimeFunction> = Vec::new();
        let mut i: usize = 0;
        proof {
            reveal(Seq::filter);
            assert(views.take(0) =~= Seq::empty());
            assert(runtime_function_views(kept@) =~= Seq::empty());
        }
        while i < self.functions.len()
            invariant
                i <= self.functions.len(),
                *self == *old(self),
                views == runtime_function_views(self.functions@),
                keep == |f: RuntimeFunctionView| f.name != name@ && f.parameters.len() != params,
                runtime_function_views(kept@) == views.take(i as int).filter(keep),
            decreases self.functions.len() - i,
        {
            let ghost before = runtime_function_views(kept@);
            let function = &self.functions[i];
            if !text_equals(function.name.as_str(), name) && function.parameters.len()
                != params {
                kept.push(function.clone());
                assert(runtime_function_views(kept@) =~= before.push(views[i as int]));
            }
            i += 1;
            proof {
                let now = views.take(i as int);
                assert(now.drop_last() =~= views.take(i - 1));
                assert(now.last() == views[i - 1]);
                reveal(Seq::filter);
            }
        }
        assert(views.take(i as int) =~= views);
        self.functions = kept;
    }

    /// Removes every variable named `name`.
    pub fn delete_variable(&mut self, name: &str)
        ensures
            final(self)@ == (RuntimeView {
                variables: old(self)@.variables.filter(|v: RuntimeVariableView| v.name != name@),
                ..old(self)@
            }),
    {
        let ghost views = runtime_variable_views(self.variables@);
        let ghost keep = |v: RuntimeVariableView| v.name != name@;
        let mut kept: Vec<RuntimeVariable> = Vec::new();
        let mut i: usize = 0;
        proof {
            reveal(Seq::filter);
            assert(views.take(0) =~= Seq::empty());
            assert(runtime_variable_views(kept@) =~= Seq::empty());
        }
        while i < self.variables.len()
            invariant
                i <= self.variables.len(),
                *self == *old(self),
                views == runtime_variable_views(self.variables@),
                keep == |v: RuntimeVariableView| v.name != name@,
                runtime_variable_views(kept@) == views.take(i as int).filter(keep),
            decreases self.variables.len() - i,
        {
            let ghost before = runtime_variable_views(kept@);
            let variable = &self.variables[i];
            if !text_equals(variable.name.as_str(), name) {
                kept.push(variable.clone());
                assert(runtime_variable_views(kept@) =~= before.push(views[i as int]));
            }
            i += 1;
            proof {
                let now = views.take(i as int);
                assert(now.drop_last() =~= views.take(i - 1));
                assert(now.last() == views[i - 1]);
                reveal(Seq::filter);
            }
        }
        assert(views.take(i as int) =~= views);
        self.variables = kept;
    }

    /// Whether a variable named `name` is there.
    pub fn variable_exists(&self, name: &str) -> (r: bool)
        ensures
            r == (variable_index(self@.variables, name@) is Some),
    {
        find_runtime_variable(&self.variables, name).is_some()
    }

    /// Whether the program defines a function named `name` with `params`
    /// parameters.
    pub fn function_exists(&self, name: &str, params: usize) -> (r: bool)
        ensures
            r == (function_index(self@.functions, name@, params as nat) is Some),
    {
        find_runtime_function(&self.functions, name, params).is_some()
    }

    /// Whether the host supplies a function named `name` with `params`
    /// parameters.
    pub fn external_function_exists(&self, name: &str, params: usize) -> (r: bool)
        ensures
            r == has_external(self@.external_functions, name@, params as nat),
    {
        find_external(&self.external_functions, name, params).is_some()
    }

    /// A copy of the first variable named `name`.
    pub fn lookup_variable(&self, name: &str) -> (r: RuntimeVariable)
        requires
            variable_index(self@.variables, name@) is Some,
        ensures
            r@ == self@.variables[variable_index(self@.variables, name@)->0],
    {
        match find_runtime_variable(&self.variables, name) {
            Some(i) => self.variables[i].clone(),
            None => vstd::pervasive::unreached(),
        }
    }

    /// A copy of the first function named `name` with `params` parameters.
    pub fn lookup_function(&self, name: &str, params: usize) -> (r: RuntimeFunction)
        requires
            function_index(self@.functions, name@, params as nat) is Some,
        ensures
            r@ == self@.functions[function_index(self@.functions, name@, params as nat)->0],
    {
        match find_runtime_function(&self.functions, name, params) {
            Some(i) => self.functions[i].clone(),
            None => vstd::pervasive::unreached(),
        }
    }

    /// A copy of the first of the host's functions named `name` with `params`
    /// parameters.
    pub fn lookup_external_function(&self, name: &str, params: usize) -> (r: ExternalRuntimeFunction)
        requires
            has_external(self@.external_functions, name@, params as nat),
        ensures
            r.name@ == name@,
            r.parameters == params,
    {
        match find_external(&self.external_functions, name, params) {
            Some(i) => self.external_functions[i].clone(),
            None => vstd::pervasive::unreached(),
        }
    }

    /// Binds the arguments `args` of a call, from the left: a reference stays
    /// a reference to the variable that it ends at, every other argument is
    /// evaluated once and bound to its value.
    #[verifier::loop_isolation(false)]
    pub fn bind_arguments<H: ExternalHost>(
        &mut self,
        args: &Vec<RuntimeExpression>,
        host: &mut H,
        depth: usize,
    ) -> (r: Result<Vec<RuntimeExpression>, RuntimeError>)
        ensures
            bound_as(
                r,
                final(self)@,
                bind_arguments(binding_views(args@), args.len() as nat, old(self)@, depth as nat),
            ),
            r is Ok ==> r->Ok_0.len() == args.len(),
        decreases depth, 1int, 0int,
    {
        let ghost given = binding_views(args@);
        let ghost start = self@;
        let mut bindings: Vec<RuntimeExpression> = Vec::new();
        let mut i: usize = 0;
        assert(binding_views(bindings@) =~= Seq::empty());
        while i < args.len()
            invariant
                i <= args.len(),
                bindings.len() == i,
                bind_arguments(given, i as nat, start, depth as nat) is None || bind_arguments(
                    given,
                    i as nat,
                    start,
                    depth as nat,
                ) == Some(
                    Ok::<(Seq<RuntimeExpressionView>, RuntimeView), RuntimeError>(
                        (binding_views(bindings@), self@),
                    ),
                ),
            decreases args.len() - i,
        {
            let ghost before = binding_views(bindings@);
            let arg = &args[i];
            assert(given[i as int] == arg@);
            proof {
                if i + 1 <= args.len() {
                    if bind_arguments(given, i as nat, start, depth as nat) is None {
                        lemma_bind_arguments_stops(
                            given,
                            i as nat,
                            args.len() as nat,
                            start,
                            depth as nat,
                        );
                    }
                }
            }
            if arg.is_pointer {
                match &arg.pointer_to {
                    Some(to) => match self.resolve_reference(to) {
                        Ok(binding) => {
                            bindings.push(binding);
                            assert(binding_views(bindings@) =~= before.push(binding@));
                        },
                        Err(e) => {
                            proof {
                                lemma_bind_arguments_stops(
                                    given,
                                    (i + 1) as nat,
                                    args.len() as nat,
                                    start,
                                    depth as nat,
                                );
                            }
                            return Err(e);
                        },
                    },
                    None => {
                        proof {
                            lemma_bind_arguments_stops(
                                given,
                                (i + 1) as nat,
                                args.len() as nat,
                                start,
                                depth as nat,
                            );
                        }
                        return Err(RuntimeError::DanglingReference);
                    },
                }
            } else {
                if depth == 0 {
                    proof {
                        lemma_bind_arguments_stops(
                            given,
                            (i + 1) as nat,
                            args.len() as nat,
                            start,
                            depth as nat,
                        );
                    }
                    return Err(RuntimeError::DepthExceeded);
                }
                match RuntimeExpression::execute_expr(&arg.orig, self, host, depth - 1) {
                    Ok(value) => {
                        let binding = bind_value(value);
                        bindings.push(binding);
                        assert(binding_views(bindings@) =~= before.push(binding@));
                    },
                    Err(e) => {
                        proof {
                            lemma_bind_arguments_stops(
                                given,
                                (i + 1) as nat,
                                args.len() as nat,
                                start,
                                depth as nat,
                            );
                        }
                        return Err(e);
                    },
                }
            }
            i += 1;
            proof {
                if !(bind_arguments(given, i as nat, start, depth as nat) matches Some(Ok(_))) {
                    lemma_bind_arguments_stops(
                        given,
                        i as nat,
                        args.len() as nat,
                        start,
                        depth as nat,
                    );
                }
            }
        }
        Ok(bindings)
    }

    /// What a parameter is bound to that is handed a reference to the
    /// variable `to`.
    fn resolve_reference(&self, to: &String) -> (r: Result<RuntimeExpression, RuntimeError>)
        ensures
            match reference_to(self@.variables, to@) {
                Ok(binding) => r is Ok && r->Ok_0@ == binding,
                Err(e) => r is Err && r->Err_0 == e,
            },
    {
        let i = match find_runtime_variable(&self.variables, to.as_str()) {
            Some(i) => i,
            None => {
                return Err(RuntimeError::VariableNotFound);
            },
        };
        let variable = &self.variables[i];
        assert(self@.variables[i as int] == variable@);
        let target = if variable.definition.is_pointer {
            match &variable.definition.pointer_to {
                Some(target) => target.clone(),
                None => {
                    return Err(RuntimeError::DanglingReference);
                },
            }
        } else if variable.function_argument {
            return Err(RuntimeError::DanglingReference);
        } else {
            to.clone()
        };
        Ok(RuntimeExpression { orig: Expression::Empty, is_pointer: true, pointer_to: Some(target) })
    }

    /// Replaces the parameters among the variables by `parameters`, bound to
    /// `bindings`.
    fn enter_function(&mut self, parameters: &Vec<String>, bindings: Vec<RuntimeExpression>)
        requires
            parameters.len() <= bindings.len(),
        ensures
            final(self)@ == enter(
                old(self)@,
                text_views(parameters@),
                binding_views(bindings@),
            ),
    {
        let mut variables = drop_parameters(&self.variables);
        let ghost kept = runtime_variable_views(variables@);
        let ghost names = text_views(parameters@);
        let ghost bound = binding_views(bindings@);
        let mut i: usize = 0;
        while i < parameters.len()
            invariant
                i <= parameters.len(),
                parameters.len() <= bindings.len(),
                names == text_views(parameters@),
                bound == binding_views(bindings@),
                runtime_variable_views(variables@) == kept + parameter_variables(names, bound).take(
                    i as int,
                ),
            decreases parameters.len() - i,
        {
            let ghost before = runtime_variable_views(variables@);
            let variable = RuntimeVariable {
                name: parameters[i].clone(),
                definition: bindings[i].clone(),
                function_argument: true,
                constant: false,
            };
            variables.push(variable);
            i += 1;
            assert(runtime_variable_views(variables@) =~= before.push(variable@));
            assert(parameter_variables(names, bound).take(i as int) =~= parameter_variables(
                names,
                bound,
            ).take(i - 1).push(variable@));
            assert(runtime_variable_views(variables@) =~= kept + parameter_variables(names, bound).take(
                i as int,
            ));
        }
        assert(parameter_variables(names, bound).take(i as int) =~= parameter_variables(names, bound));
        self.variables = variables;
    }

    /// Removes the parameters from the variables.
    fn leave_function(&mut self)
        ensures
            final(self)@ == leave(old(self)@),
    {
        self.variables = drop_parameters(&self.variables);
    }

    /// Notes for the function named `name` with `arity` parameters the result
    /// `result` of a call with the bindings `key`.
    fn remember_result(&mut self, name: &str, arity: usize, key: Vec<RuntimeExpression>, result: Number)
        ensures
            final(self)@ == remember(
                old(self)@,
                name@,
                arity as nat,
                binding_views(key@),
                result@,
            ),
    {
        match find_runtime_function(&self.functions, name, arity) {
            Some(i) => {
                let ghost before = runtime_function_views(self.functions@);
                let mut function = self.functions[i].clone();
                let ghost entries = cache_view(function.cache@);
                function.cache.push(Tuple { a: key, b: result });
                assert(cache_view(function.cache@) =~= entries.push(
                    Tuple { a: binding_views(key@), b: result@ },
                ));
                self.functions.set(i, function);
                assert(runtime_function_views(self.functions@) =~= before.update(i as int, function@));
            },
            None => {},
        }
    }

    /// Assigns `val` to the variable named as `var` is, and returns `val`. An
    /// assignment to a variable that is bound to another variable goes to
    /// that one.
    pub fn reassign_variable(&mut self, var: RuntimeVariable, val: Number, depth: usize) -> (r: Result<
        Number,
        RuntimeError,
    >)
        ensures
            match assign(var.name@, val@, old(self)@, depth as nat) {
                Ok(env) => r is Ok && r->Ok_0@ == val@ && final(self)@ == env,
                Err(e) => r is Err && r->Err_0 == e && final(self)@ == old(self)@,
            },
        decreases depth,
    {
        let i = match find_runtime_variable(&self.variables, var.name.as_str()) {
            Some(i) => i,
            None => {
                return Err(RuntimeError::VariableNotFound);
            },
        };
        let found = self.variables[i].clone();
        assert(self@.variables[i as int] == found@);
        if found.definition.is_pointer {
            let target = match found.definition.pointer_to {
                Some(target) => target,
                None => {
                    return Err(RuntimeError::DanglingReference);
                },
            };
            if depth == 0 {
                return Err(RuntimeError::DepthExceeded);
            }
            let pointee = RuntimeVariable {
                name: target,
                definition: RuntimeExpression::empty(),
                function_argument: false,
                constant: false,
            };
            self.reassign_variable(pointee, val, depth - 1)
        } else if found.constant {
            Err(RuntimeError::ConstantReassigned)
        } else {
            let ghost before = runtime_variable_views(self.variables@);
            let updated = RuntimeVariable {
                name: found.name,
                definition: bind_value(val.clone()),
                function_argument: found.function_argument,
                constant: found.constant,
            };
            self.variables.set(i, updated);
            assert(runtime_variable_views(self.variables@) =~= before.update(i as int, updated@));
            Ok(val)
        }
    }

    /// Calls the function named `name` with the arguments `args`: the first
    /// function of the program with this name and as many parameters, or
    /// else the host's.
    pub fn invoke_function<H: ExternalHost>(
        &mut self,
        name: &str,
        args: Vec<RuntimeExpression>,
        host: &mut H,
        depth: usize,
    ) -> (r: Result<Number, RuntimeError>)
        ensures
            evaluated_as(r, final(self)@, call(name@, binding_views(args@), old(self)@, depth as nat)),
            function_index(old(self)@.functions, name@, args.len() as nat) matches Some(i) && old(
                self,
            )@.functions[i].cached && has_reference(binding_views(args@)) ==> final(self)@ == old(
                self,
            )@,
        decreases depth, 3int, 0int,
    {
        match find_runtime_function(&self.functions, name, args.len()) {
            Some(i) => {
                let fun = self.functions[i].clone();
                assert(self@.functions[i as int] == fun@);
                fun.invoke(args, self, host, depth)
            },
            None => match find_external(&self.external_functions, name, args.len()) {
                Some(i) => {
                    let external = self.external_functions[i].clone();
                    external.invoke(args, self, host, depth)
                },
                None => Err(RuntimeError::FunctionNotFound),
            },
        }
    }
}

/// Runs the program `ast`: its expressions outside every declaration, in
/// order, against one environment, each within `depth` nested evaluations.
/// The first error ends the run.
#[verifier::loop_isolation(false)]
pub fn interpret<H: ExternalHost>(
    ast: AST,
    external_functions: Vec<ExternalRuntimeFunction>,
    host: &mut H,
    depth: usize,
) -> (r: Result<(), RuntimeError>)
    ensures
        match run(
            ast@.loose_expressions,
            ast@.loose_expressions.len(),
            initial_environment(ast@, external_views(external_functions@)),
            depth as nat,
        ) {
            None => true,
            Some(Ok(_)) => r is Ok,
            Some(Err(e)) => r is Err && r->Err_0 == e,
        },
{
    let ghost expressions = ast@.loose_expressions;
    let mut runtime = RuntimeAST::create(ast.clone(), external_functions);
    let ghost start = runtime@;
    let mut i: usize = 0;
    while i < ast.loose_expressions.len()
        invariant
            i <= ast.loose_expressions.len(),
            run(expressions, i as nat, start, depth as nat) is None || run(
                expressions,
                i as nat,
                start,
                depth as nat,
            ) == Some(Ok::<RuntimeView, RuntimeError>(runtime@)),
        decreases ast.loose_expressions.len() - i,
    {
        proof {
            if run(expressions, i as nat, start, depth as nat) is None {
                lemma_run_stops(expressions, i as nat, expressions.len(), start, depth as nat);
            }
        }
        let expr = RuntimeExpression::from(ast.loose_expressions[i].clone(), &runtime);
        match expr.execute(&mut runtime, host, depth) {
            Ok(_) => {},
            Err(e) => {
                proof {
                    lemma_run_stops(expressions, (i + 1) as nat, expressions.len(), start, depth as nat);
                }
                return Err(e);
            },
        }
        i += 1;
        proof {
            if !(run(expressions, i as nat, start, depth as nat) matches Some(Ok(_))) {
                lemma_run_stops(expressions, i as nat, expressions.len(), start, depth as nat);
            }
        }
    }
    Ok(())
}

} // verus!
