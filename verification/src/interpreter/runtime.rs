//! The state of a running program: its variables, its functions with their
//! caches, and the functions that the host supplies.

use crate::ast::clone_strings;
use crate::ast::text_views;
use crate::ast::Expression;
use crate::ast::ExpressionView;
use crate::number::Number;
use crate::text::text_equals;
use vstd::prelude::*;

verus! {

/// A pair.
#[derive(Debug, PartialEq)]
pub struct Tuple<A, B> {
    pub a: A,
    pub b: B,
}

/// What a variable is bound to: the expression `orig`, or, where `is_pointer`
/// holds, the variable named by `pointer_to`.
#[derive(Debug)]
pub struct RuntimeExpression {
    pub orig: Expression,
    pub is_pointer: bool,
    pub pointer_to: Option<String>,
}

/// What a [`RuntimeExpression`] denotes.
pub ghost struct RuntimeExpressionView {
    pub orig: ExpressionView,
    pub is_pointer: bool,
    pub pointer_to: Option<Seq<char>>,
}

/// The text of an optional string.
pub open spec fn optional_text(s: Option<String>) -> Option<Seq<char>> {
    match s {
        Some(text) => Some(text@),
        None => None,
    }
}

impl View for RuntimeExpression {
    type V = RuntimeExpressionView;

    open spec fn view(&self) -> RuntimeExpressionView {
        RuntimeExpressionView {
            orig: self.orig@,
            is_pointer: self.is_pointer,
            pointer_to: optional_text(self.pointer_to),
        }
    }
}

impl Clone for RuntimeExpression {
    fn clone(&self) -> (r: Self)
        ensures
            r@ == self@,
    {
        RuntimeExpression {
            orig: self.orig.clone(),
            is_pointer: self.is_pointer,
            pointer_to: match &self.pointer_to {
                Some(to) => Some(to.clone()),
                None => None,
            },
        }
    }
}

/// The views of the bindings `list`, in order.
pub open spec fn binding_views(list: Seq<RuntimeExpression>) -> Seq<RuntimeExpressionView> {
    list.map_values(|e: RuntimeExpression| e@)
}

/// Copies a list of bindings.
pub fn clone_bindings(list: &Vec<RuntimeExpression>) -> (r: Vec<RuntimeExpression>)
    ensures
        binding_views(r@) == binding_views(list@),
{
    let mut copies: Vec<RuntimeExpression> = Vec::new();
    let mut i: usize = 0;
    while i < list.len()
        invariant
            i <= list.len(),
            copies.len() == i,
            forall|j: int| 0 <= j < i ==> copies@[j]@ == list@[j]@,
        decreases list.len() - i,
    {
        copies.push(list[i].clone());
        i += 1;
    }
    assert(binding_views(copies@) =~= binding_views(list@));
    copies
}

/// A variable of a running program. A parameter of the function that runs is
/// a variable too, marked by `function_argument`.
#[derive(Debug)]
pub struct RuntimeVariable {
    pub name: String,
    pub definition: RuntimeExpression,
    pub function_argument: bool,
    pub constant: bool,
}

/// What a [`RuntimeVariable`] denotes.
pub ghost struct RuntimeVariableView {
    pub name: Seq<char>,
    pub definition: RuntimeExpressionView,
    pub function_argument: bool,
    pub constant: bool,
}

impl View for RuntimeVariable {
    type V = RuntimeVariableView;

    open spec fn view(&self) -> RuntimeVariableView {
        RuntimeVariableView {
            name: self.name@,
            definition: self.definition@,
            function_argument: self.function_argument,
            constant: self.constant,
        }
    }
}

impl Clone for RuntimeVariable {
    fn clone(&self) -> (r: Self)
        ensures
            r@ == self@,
    {
        RuntimeVariable {
            name: self.name.clone(),
            definition: self.definition.clone(),
            function_argument: self.function_argument,
            constant: self.constant,
        }
    }
}

/// One result that a function remembers: the bindings of its parameters in
/// `a`, the value it returned in `b`.
pub type CacheEntryView = Tuple<Seq<RuntimeExpressionView>, int>;

/// What an entry of a cache denotes.
pub open spec fn cache_entry_view(entry: Tuple<Vec<RuntimeExpression>, Number>) -> CacheEntryView {
    Tuple { a: binding_views(entry.a@), b: entry.b@ }
}

/// What a cache denotes.
pub open spec fn cache_view(cache: Seq<Tuple<Vec<RuntimeExpression>, Number>>) -> Seq<CacheEntryView> {
    cache.map_values(|entry: Tuple<Vec<RuntimeExpression>, Number>| cache_entry_view(entry))
}

/// A function of a running program, with the results that it remembers.
#[derive(Debug)]
pub struct RuntimeFunction {
    pub name: String,
    pub definition: RuntimeExpression,
    pub parameters: Vec<String>,
    pub cached: bool,
    pub cache: Vec<Tuple<Vec<RuntimeExpression>, Number>>,
}

/// What a [`RuntimeFunction`] denotes.
pub ghost struct RuntimeFunctionView {
    pub name: Seq<char>,
    pub definition: RuntimeExpressionView,
    pub parameters: Seq<Seq<char>>,
    pub cached: bool,
    pub cache: Seq<CacheEntryView>,
}

impl View for RuntimeFunction {
    type V = RuntimeFunctionView;

    open spec fn view(&self) -> RuntimeFunctionView {
        RuntimeFunctionView {
            name: self.name@,
            definition: self.definition@,
            parameters: text_views(self.parameters@),
            cached: self.cached,
            cache: cache_view(self.cache@),
        }
    }
}

impl Clone for RuntimeFunction {
    fn clone(&self) -> (r: Self)
        ensures
            r@ == self@,
    {
        let mut cache: Vec<Tuple<Vec<RuntimeExpression>, Number>> = Vec::new();
        let mut i: usize = 0;
        while i < self.cache.len()
            invariant
                i <= self.cache.len(),
                cache.len() == i,
                forall|j: int|
                    0 <= j < i ==> cache_entry_view(cache@[j]) == cache_entry_view(self.cache@[j]),
            decreases self.cache.len() - i,
        {
            let entry = &self.cache[i];
            cache.push(Tuple { a: clone_bindings(&entry.a), b: entry.b.clone() });
            i += 1;
        }
        assert(cache_view(cache@) =~= cache_view(self.cache@));
        RuntimeFunction {
            name: self.name.clone(),
            definition: self.definition.clone(),
            parameters: clone_strings(&self.parameters),
            cached: self.cached,
            cache,
        }
    }
}

/// A function that the host supplies: its name and the number of its parameters.
#[derive(Debug)]
pub struct ExternalRuntimeFunction {
    pub name: String,
    pub parameters: usize,
}

/// What an [`ExternalRuntimeFunction`] denotes.
pub ghost struct ExternalFunctionView {
    pub name: Seq<char>,
    pub parameters: nat,
}

impl View for ExternalRuntimeFunction {
    type V = ExternalFunctionView;

    open spec fn view(&self) -> ExternalFunctionView {
        ExternalFunctionView { name: self.name@, parameters: self.parameters as nat }
    }
}

impl Clone for ExternalRuntimeFunction {
    fn clone(&self) -> (r: Self)
        ensures
            r == *self,
    {
        ExternalRuntimeFunction { name: self.name.clone(), parameters: self.parameters }
    }
}

/// The views of the variables `list`, in order.
pub open spec fn runtime_variable_views(list: Seq<RuntimeVariable>) -> Seq<RuntimeVariableView> {
    list.map_values(|v: RuntimeVariable| v@)
}

/// The views of the functions `list`, in order.
pub open spec fn runtime_function_views(list: Seq<RuntimeFunction>) -> Seq<RuntimeFunctionView> {
    list.map_values(|f: RuntimeFunction| f@)
}

/// The views of the host's functions `list`, in order.
pub open spec fn external_views(list: Seq<ExternalRuntimeFunction>) -> Seq<ExternalFunctionView> {
    list.map_values(|f: ExternalRuntimeFunction| f@)
}

/// The environment of a running program.
#[derive(Debug)]
pub struct RuntimeAST {
    pub variables: Vec<RuntimeVariable>,
    pub functions: Vec<RuntimeFunction>,
    pub external_functions: Vec<ExternalRuntimeFunction>,
}

/// What a [`RuntimeAST`] denotes.
pub ghost struct RuntimeView {
    pub variables: Seq<RuntimeVariableView>,
    pub functions: Seq<RuntimeFunctionView>,
    pub external_functions: Seq<ExternalFunctionView>,
}

impl View for RuntimeAST {
    type V = RuntimeView;

    open spec fn view(&self) -> RuntimeView {
        RuntimeView {
            variables: runtime_variable_views(self.variables@),
            functions: runtime_function_views(self.functions@),
            external_functions: external_views(self.external_functions@),
        }
    }
}

/// Copies a list of variables.
pub fn clone_runtime_variables(list: &Vec<RuntimeVariable>) -> (r: Vec<RuntimeVariable>)
    ensures
        runtime_variable_views(r@) == runtime_variable_views(list@),
{
    let mut copies: Vec<RuntimeVariable> = Vec::new();
    let mut i: usize = 0;
    while i < list.len()
        invariant
            i <= list.len(),
            copies.len() == i,
            forall|j: int| 0 <= j < i ==> copies@[j]@ == list@[j]@,
        decreases list.len() - i,
    {
        copies.push(list[i].clone());
        i += 1;
    }
    assert(runtime_variable_views(copies@) =~= runtime_variable_views(list@));
    copies
}

/// Copies a list of functions.
pub fn clone_runtime_functions(list: &Vec<RuntimeFunction>) -> (r: Vec<RuntimeFunction>)
    ensures
        runtime_function_views(r@) == runtime_function_views(list@),
{
    let mut copies: Vec<RuntimeFunction> = Vec::new();
    let mut i: usize = 0;
    while i < list.len()
        invariant
            i <= list.len(),
            copies.len() == i,
            forall|j: int| 0 <= j < i ==> copies@[j]@ == list@[j]@,
        decreases list.len() - i,
    {
        copies.push(list[i].clone());
        i += 1;
    }
    assert(runtime_function_views(copies@) =~= runtime_function_views(list@));
    copies
}

/// Copies a list of the host's functions.
pub fn clone_externals(list: &Vec<ExternalRuntimeFunction>) -> (r: Vec<ExternalRuntimeFunction>)
    ensures
        r@ == list@,
{
    let mut copies: Vec<ExternalRuntimeFunction> = Vec::new();
    let mut i: usize = 0;
    while i < list.len()
        invariant
            i <= list.len(),
            copies@ == list@.take(i as int),
        decreases list.len() - i,
    {
        copies.push(list[i].clone());
        i += 1;
        assert(copies@ =~= list@.take(i as int));
    }
    assert(list@.take(i as int) =~= list@);
    copies
}

impl Clone for RuntimeAST {
    fn clone(&self) -> (r: Self)
        ensures
            r@ == self@,
    {
        RuntimeAST {
            variables: clone_runtime_variables(&self.variables),
            functions: clone_runtime_functions(&self.functions),
            external_functions: clone_externals(&self.external_functions),
        }
    }
}

/// The place of the first variable named `name` in `variables`, if there is one.
#[verifier::opaque]
pub open spec fn variable_index(variables: Seq<RuntimeVariableView>, name: Seq<char>) -> Option<int> {
    if exists|i: int| 0 <= i < variables.len() && (#[trigger] variables[i]).name == name {
        Some(
            choose|i: int|
                0 <= i < variables.len() && (#[trigger] variables[i]).name == name && forall|j: int|
                    0 <= j < i ==> (#[trigger] variables[j]).name != name,
        )
    } else {
        None
    }
}

/// The place of the first function in `functions` named `name` with `arity`
/// parameters, if there is one.
#[verifier::opaque]
pub open spec fn function_index(functions: Seq<RuntimeFunctionView>, name: Seq<char>, arity: nat) -> Option<
    int,
> {
    if exists|i: int|
        0 <= i < functions.len() && (#[trigger] functions[i]).name == name
            && functions[i].parameters.len() == arity {
        Some(
            choose|i: int|
                0 <= i < functions.len() && (#[trigger] functions[i]).name == name
                    && functions[i].parameters.len() == arity && forall|j: int|
                    0 <= j < i ==> !((#[trigger] functions[j]).name == name
                        && functions[j].parameters.len() == arity),
        )
    } else {
        None
    }
}

/// Whether the host supplies a function named `name` with `arity` parameters.
#[verifier::opaque]
pub open spec fn has_external(externals: Seq<ExternalFunctionView>, name: Seq<char>, arity: nat) -> bool {
    exists|i: int|
        0 <= i < externals.len() && (#[trigger] externals[i]).name == name
            && externals[i].parameters == arity
}

/// What [`variable_index`] gives is the first place of a variable of that
/// name; it gives none only where there is no such variable.
pub proof fn lemma_variable_index(variables: Seq<RuntimeVariableView>, name: Seq<char>)
    ensures
        match variable_index(variables, name) {
            Some(i) => {
                &&& 0 <= i < variables.len()
                &&& variables[i].name == name
                &&& forall|j: int| 0 <= j < i ==> (#[trigger] variables[j]).name != name
            },
            None => forall|j: int| 0 <= j < variables.len() ==> (#[trigger] variables[j]).name != name,
        },
{
    reveal(variable_index);
    if exists|i: int| 0 <= i < variables.len() && (#[trigger] variables[i]).name == name {
        let some = choose|i: int| 0 <= i < variables.len() && (#[trigger] variables[i]).name == name;
        lemma_first_variable(variables, name, some);
    }
}

/// Where a variable of a name is at a place, a first one is at or before it.
proof fn lemma_first_variable(variables: Seq<RuntimeVariableView>, name: Seq<char>, at: int)
    requires
        0 <= at < variables.len(),
        variables[at].name == name,
    ensures
        exists|i: int|
            0 <= i < variables.len() && (#[trigger] variables[i]).name == name && forall|j: int|
                0 <= j < i ==> (#[trigger] variables[j]).name != name,
    decreases at,
{
    if exists|k: int| 0 <= k < at && (#[trigger] variables[k]).name == name {
        let k = choose|k: int| 0 <= k < at && (#[trigger] variables[k]).name == name;
        lemma_first_variable(variables, name, k);
    } else {
        assert(variables[at].name == name && forall|j: int|
            0 <= j < at ==> (#[trigger] variables[j]).name != name);
    }
}

/// The place that is the first of a variable of a name is what
/// [`variable_index`] gives.
pub proof fn lemma_variable_index_is(variables: Seq<RuntimeVariableView>, name: Seq<char>, i: int)
    requires
        0 <= i < variables.len(),
        variables[i].name == name,
        forall|j: int| 0 <= j < i ==> (#[trigger] variables[j]).name != name,
    ensures
        variable_index(variables, name) == Some(i),
{
    lemma_variable_index(variables, name);
}

/// What [`function_index`] gives is the first place of a function of that
/// name and number of parameters; it gives none only where there is no such
/// function.
pub proof fn lemma_function_index(functions: Seq<RuntimeFunctionView>, name: Seq<char>, arity: nat)
    ensures
        match function_index(functions, name, arity) {
            Some(i) => {
                &&& 0 <= i < functions.len()
                &&& functions[i].name == name
                &&& functions[i].parameters.len() == arity
                &&& forall|j: int|
                    0 <= j < i ==> !((#[trigger] functions[j]).name == name
                        && functions[j].parameters.len() == arity)
            },
            None => forall|j: int|
                0 <= j < functions.len() ==> !((#[trigger] functions[j]).name == name
                    && functions[j].parameters.len() == arity),
        },
{
    reveal(function_index);
    if exists|i: int|
        0 <= i < functions.len() && (#[trigger] functions[i]).name == name
            && functions[i].parameters.len() == arity {
        let some = choose|i: int|
            0 <= i < functions.len() && (#[trigger] functions[i]).name == name
                && functions[i].parameters.len() == arity;
        lemma_first_function(functions, name, arity, some);
    }
}

/// Where a function of a name and a number of parameters is at a place, a
/// first one is at or before it.
proof fn lemma_first_function(functions: Seq<RuntimeFunctionView>, name: Seq<char>, arity: nat, at: int)
    requires
        0 <= at < functions.len(),
        functions[at].name == name,
        functions[at].parameters.len() == arity,
    ensures
        exists|i: int|
            0 <= i < functions.len() && (#[trigger] functions[i]).name == name
                && functions[i].parameters.len() == arity && forall|j: int|
                0 <= j < i ==> !((#[trigger] functions[j]).name == name
                    && functions[j].parameters.len() == arity),
    decreases at,
{
    if exists|k: int|
        0 <= k < at && (#[trigger] functions[k]).name == name && functions[k].parameters.len()
            == arity {
        let k = choose|k: int|
            0 <= k < at && (#[trigger] functions[k]).name == name && functions[k].parameters.len()
                == arity;
        lemma_first_function(functions, name, arity, k);
    } else {
        assert(functions[at].name == name && functions[at].parameters.len() == arity
            && forall|j: int|
            0 <= j < at ==> !((#[trigger] functions[j]).name == name
                && functions[j].parameters.len() == arity));
    }
}

/// The place that is the first of a function of a name and a number of
/// parameters is what [`function_index`] gives.
pub proof fn lemma_function_index_is(
    functions: Seq<RuntimeFunctionView>,
    name: Seq<char>,
    arity: nat,
    i: int,
)
    requires
        0 <= i < functions.len(),
        functions[i].name == name,
        functions[i].parameters.len() == arity,
        forall|j: int|
            0 <= j < i ==> !((#[trigger] functions[j]).name == name && functions[j].parameters.len()
                == arity),
    ensures
        function_index(functions, name, arity) == Some(i),
{
    lemma_function_index(functions, name, arity);
}

/// The place of the first variable named `name` in `variables`.
#[verifier::loop_isolation(false)]
pub fn find_runtime_variable(variables: &Vec<RuntimeVariable>, name: &str) -> (r: Option<usize>)
    ensures
        match r {
            Some(i) => i < variables.len() && variables[i as int].name@ == name@ && variable_index(
                runtime_variable_views(variables@),
                name@,
            ) == Some(i as int),
            None => variable_index(runtime_variable_views(variables@), name@) is None,
        },
{
    let ghost views = runtime_variable_views(variables@);
    let mut i: usize = 0;
    proof {
        reveal(variable_index);
    }
    while i < variables.len()
        invariant
            i <= variables.len(),
            views == runtime_variable_views(variables@),
            forall|j: int| 0 <= j < i ==> (#[trigger] views[j]).name != name@,
        decreases variables.len() - i,
    {
        if text_equals(variables[i].name.as_str(), name) {
            assert(views[i as int].name == name@);
            return Some(i);
        }
        i += 1;
    }
    None
}

/// The place of the first function in `functions` named `name` with `arity` parameters.
#[verifier::loop_isolation(false)]
pub fn find_runtime_function(functions: &Vec<RuntimeFunction>, name: &str, arity: usize) -> (r: Option<
    usize,
>)
    ensures
        match r {
            Some(i) => i < functions.len() && functions[i as int].name@ == name@
                && functions[i as int].parameters.len() == arity && function_index(
                runtime_function_views(functions@),
                name@,
                arity as nat,
            ) == Some(i as int),
            None => function_index(runtime_function_views(functions@), name@, arity as nat) is None,
        },
{
    let ghost views = runtime_function_views(functions@);
    let mut i: usize = 0;
    proof {
        reveal(function_index);
    }
    while i < functions.len()
        invariant
            i <= functions.len(),
            views == runtime_function_views(functions@),
            forall|j: int|
                0 <= j < i ==> !((#[trigger] views[j]).name == name@ && views[j].parameters.len()
                    == arity),
        decreases functions.len() - i,
    {
        if text_equals(functions[i].name.as_str(), name) && functions[i].parameters.len() == arity {
            assert(views[i as int].name == name@);
            assert(views[i as int].parameters.len() == arity);
            return Some(i);
        }
        i += 1;
    }
    None
}

/// The place of the first of the host's functions named `name` with `arity` parameters.
#[verifier::loop_isolation(false)]
pub fn find_external(externals: &Vec<ExternalRuntimeFunction>, name: &str, arity: usize) -> (r: Option<
    usize,
>)
    ensures
        r is Some <==> has_external(external_views(externals@), name@, arity as nat),
        r is Some ==> r->0 < externals.len() && externals[r->0 as int].name@ == name@
            && externals[r->0 as int].parameters == arity,
{
    let ghost views = external_views(externals@);
    let mut i: usize = 0;
    proof {
        reveal(has_external);
    }
    while i < externals.len()
        invariant
            i <= externals.len(),
            views == external_views(externals@),
            forall|j: int|
                0 <= j < i ==> !((#[trigger] views[j]).name == name@ && views[j].parameters == arity),
        decreases externals.len() - i,
    {
        if text_equals(externals[i].name.as_str(), name) && externals[i].parameters == arity {
            assert(views[i as int].name == name@);
            assert(views[i as int].parameters == arity);
            return Some(i);
        }
        i += 1;
    }
    None
}

} // verus!
