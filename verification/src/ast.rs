//! The resolved program: expressions, variables and functions.

use crate::number::Number;
use crate::parser::expression::part_views;
use crate::parser::expression::PartExpression;
use crate::parser::expression::PartView;
use crate::text::text_equals;
use vstd::prelude::*;

verus! {

/// The binary operators of the language.
#[derive(Debug, Clone, Copy, PartialEq, Eq, Structural)]
pub enum MathType {
    Add,
    Subtract,
    Multiply,
    Divide,
    Equals,
    NotEquals,
    BiggerOrEquals,
    Bigger,
    SmallerOrEquals,
    Smaller,
    Pow,
}

impl MathType {
    /// The text of the operator in a program.
    pub open spec fn symbol(self) -> Seq<char> {
        match self {
            MathType::Add => "+"@,
            MathType::Subtract => "-"@,
            MathType::Multiply => "*"@,
            MathType::Divide => "/"@,
            MathType::Equals => "=="@,
            MathType::NotEquals => "=!"@,
            MathType::BiggerOrEquals => ">="@,
            MathType::Bigger => ">"@,
            MathType::SmallerOrEquals => "<="@,
            MathType::Smaller => "<"@,
            MathType::Pow => "^"@,
        }
    }

    /// The operator whose text is `text`, if there is one.
    pub open spec fn with_symbol(text: Seq<char>) -> Option<MathType> {
        if text == "+"@ {
            Some(MathType::Add)
        } else if text == "-"@ {
            Some(MathType::Subtract)
        } else if text == "*"@ {
            Some(MathType::Multiply)
        } else if text == "/"@ {
            Some(MathType::Divide)
        } else if text == "=="@ {
            Some(MathType::Equals)
        } else if text == "=!"@ {
            Some(MathType::NotEquals)
        } else if text == ">="@ {
            Some(MathType::BiggerOrEquals)
        } else if text == ">"@ {
            Some(MathType::Bigger)
        } else if text == "<="@ {
            Some(MathType::SmallerOrEquals)
        } else if text == "<"@ {
            Some(MathType::Smaller)
        } else if text == "^"@ {
            Some(MathType::Pow)
        } else {
            None
        }
    }

    /// The text of the operator in a program.
    fn symbol_str(&self) -> (r: &'static str)
        ensures
            r@ == self.symbol(),
    {
        match self {
            MathType::Add => "+",
            MathType::Subtract => "-",
            MathType::Multiply => "*",
            MathType::Divide => "/",
            MathType::Equals => "==",
            MathType::NotEquals => "=!",
            MathType::BiggerOrEquals => ">=",
            MathType::Bigger => ">",
            MathType::SmallerOrEquals => "<=",
            MathType::Smaller => "<",
            MathType::Pow => "^",
        }
    }

    /// The text of the operator in a program.
    pub fn operator(&self) -> (r: String)
        ensures
            r@ == self.symbol(),
    {
        self.symbol_str().to_owned()
    }

    /// All the operators.
    pub fn entries() -> (r: Vec<MathType>)
        ensures
            r@ == seq![
                MathType::Add,
                MathType::Subtract,
                MathType::Multiply,
                MathType::Divide,
                MathType::Equals,
                MathType::NotEquals,
                MathType::BiggerOrEquals,
                MathType::Bigger,
                MathType::SmallerOrEquals,
                MathType::Smaller,
                MathType::Pow,
            ],
    {
        vec![
            MathType::Add,
            MathType::Subtract,
            MathType::Multiply,
            MathType::Divide,
            MathType::Equals,
            MathType::NotEquals,
            MathType::BiggerOrEquals,
            MathType::Bigger,
            MathType::SmallerOrEquals,
            MathType::Smaller,
            MathType::Pow,
        ]
    }

    /// The operator whose text is `operator`, if there is one.
    pub fn lookup(operator: &str) -> (r: Option<MathType>)
        ensures
            r == MathType::with_symbol(operator@),
    {
        if text_equals(operator, "+") {
            Some(MathType::Add)
        } else if text_equals(operator, "-") {
            Some(MathType::Subtract)
        } else if text_equals(operator, "*") {
            Some(MathType::Multiply)
        } else if text_equals(operator, "/") {
            Some(MathType::Divide)
        } else if text_equals(operator, "==") {
            Some(MathType::Equals)
        } else if text_equals(operator, "=!") {
            Some(MathType::NotEquals)
        } else if text_equals(operator, ">=") {
            Some(MathType::BiggerOrEquals)
        } else if text_equals(operator, ">") {
            Some(MathType::Bigger)
        } else if text_equals(operator, "<=") {
            Some(MathType::SmallerOrEquals)
        } else if text_equals(operator, "<") {
            Some(MathType::Smaller)
        } else if text_equals(operator, "^") {
            Some(MathType::Pow)
        } else {
            None
        }
    }

    /// The operator whose text is `operator`.
    pub fn of(operator: String) -> (r: MathType)
        requires
            MathType::with_symbol(operator@) is Some,
        ensures
            Some(r) == MathType::with_symbol(operator@),
    {
        match MathType::lookup(operator.as_str()) {
            Some(m) => m,
            None => vstd::pervasive::unreached(),
        }
    }
}

/// Each operator is found again by its own text.
pub proof fn lemma_symbol_round_trip(m: MathType)
    ensures
        MathType::with_symbol(m.symbol()) == Some(m),
{
    reveal_strlit("+");
    reveal_strlit("-");
    reveal_strlit("*");
    reveal_strlit("/");
    reveal_strlit("==");
    reveal_strlit("=!");
    reveal_strlit(">=");
    reveal_strlit(">");
    reveal_strlit("<=");
    reveal_strlit("<");
    reveal_strlit("^");
    assert("+"@.len() == 1 && "+"@[0] == '+');
    assert("-"@.len() == 1 && "-"@[0] == '-');
    assert("*"@.len() == 1 && "*"@[0] == '*');
    assert("/"@.len() == 1 && "/"@[0] == '/');
    assert("=="@.len() == 2 && "=="@[0] == '=' && "=="@[1] == '=');
    assert("=!"@.len() == 2 && "=!"@[0] == '=' && "=!"@[1] == '!');
    assert(">="@.len() == 2 && ">="@[0] == '>' && ">="@[1] == '=');
    assert(">"@.len() == 1 && ">"@[0] == '>');
    assert("<="@.len() == 2 && "<="@[0] == '<' && "<="@[1] == '=');
    assert("<"@.len() == 1 && "<"@[0] == '<');
    assert("^"@.len() == 1 && "^"@[0] == '^');
}

/// A resolved expression.
#[derive(Debug)]
#[allow(inconsistent_fields)]
pub enum Expression {
    /// The mark of an expression that is not there.
    Empty,
    /// The body of a function that the host supplies.
    External,
    NumberValue { value: Number },
    VariableAccess { variable: String },
    Math { var1: Box<Expression>, var2: Box<Expression>, math: MathType },
    FunctionInvocation { function: String, arguments: Vec<Expression> },
    VariableAssignment { variable: String, value: Box<Expression> },
    /// A variable passed by reference, named by `to`.
    Pointer { to: String },
}

/// What an [`Expression`] denotes: the same tree over integers and texts.
#[allow(inconsistent_fields)]
pub ghost enum ExpressionView {
    Empty,
    External,
    NumberValue { value: int },
    VariableAccess { variable: Seq<char> },
    Math { var1: Box<ExpressionView>, var2: Box<ExpressionView>, math: MathType },
    FunctionInvocation { function: Seq<char>, arguments: Seq<ExpressionView> },
    VariableAssignment { variable: Seq<char>, value: Box<ExpressionView> },
    Pointer { to: Seq<char> },
}

/// The views of the expressions `list`, in order.
pub open spec fn expression_views(list: Seq<Expression>) -> Seq<ExpressionView>
    decreases list,
{
    Seq::new(
        list.len(),
        |i: int|
            if 0 <= i < list.len() {
                list[i].model()
            } else {
                ExpressionView::Empty
            },
    )
}

impl Expression {
    /// The tree that this expression denotes.
    pub open spec fn model(&self) -> ExpressionView
        decreases self,
    {
        match self {
            Expression::Empty => ExpressionView::Empty,
            Expression::External => ExpressionView::External,
            Expression::NumberValue { value } => ExpressionView::NumberValue { value: value@ },
            Expression::VariableAccess { variable } => ExpressionView::VariableAccess {
                variable: variable@,
            },
            Expression::Math { var1, var2, math } => ExpressionView::Math {
                var1: Box::new(var1.model()),
                var2: Box::new(var2.model()),
                math: *math,
            },
            Expression::FunctionInvocation { function, arguments } => ExpressionView::FunctionInvocation {
                function: function@,
                arguments: expression_views(arguments@),
            },
            Expression::VariableAssignment { variable, value } => ExpressionView::VariableAssignment {
                variable: variable@,
                value: Box::new(value.model()),
            },
            Expression::Pointer { to } => ExpressionView::Pointer { to: to@ },
        }
    }

    /// The name of the variable that this expression reads.
    pub fn variable_acess_variable(&self) -> (r: &String)
        requires
            self@ is VariableAccess,
        ensures
            self@ == (ExpressionView::VariableAccess { variable: r@ }),
    {
        match self {
            Expression::VariableAccess { variable } => variable,
            _ => vstd::pervasive::unreached(),
        }
    }

    /// Whether this is the mark of a body that the host supplies.
    pub fn is_external(&self) -> (r: bool)
        ensures
            r == (self@ is External),
    {
        match self {
            Expression::External => true,
            _ => false,
        }
    }

    /// Whether the two expressions have the same view: the same shape, the
    /// same names and equal numbers.
    pub fn equals(&self, other: &Expression) -> (r: bool)
        ensures
            r == (self@ == other@),
        decreases self, 1int,
    {
        match self {
            Expression::Empty => match other {
                Expression::Empty => true,
                _ => false,
            },
            Expression::External => match other {
                Expression::External => true,
                _ => false,
            },
            Expression::NumberValue { value } => match other {
                Expression::NumberValue { value: other_value } => value.equals(other_value),
                _ => false,
            },
            Expression::VariableAccess { variable } => match other {
                Expression::VariableAccess { variable: other_variable } => text_equals(
                    variable.as_str(),
                    other_variable.as_str(),
                ),
                _ => false,
            },
            Expression::Math { var1, var2, math } => match other {
                Expression::Math { var1: other_var1, var2: other_var2, math: other_math } => {
                    *math == *other_math && var1.equals(other_var1) && var2.equals(other_var2)
                },
                _ => false,
            },
            Expression::FunctionInvocation { function, arguments } => match other {
                Expression::FunctionInvocation {
                    function: other_function,
                    arguments: other_arguments,
                } => {
                    text_equals(function.as_str(), other_function.as_str()) && expressions_equal(
                        arguments,
                        other_arguments,
                    )
                },
                _ => false,
            },
            Expression::VariableAssignment { variable, value } => match other {
                Expression::VariableAssignment { variable: other_variable, value: other_value } => {
                    text_equals(variable.as_str(), other_variable.as_str()) && value.equals(
                        other_value,
                    )
                },
                _ => false,
            },
            Expression::Pointer { to } => match other {
                Expression::Pointer { to: other_to } => text_equals(to.as_str(), other_to.as_str()),
                _ => false,
            },
        }
    }
}

impl View for Expression {
    type V = ExpressionView;

    open spec fn view(&self) -> ExpressionView {
        self.model()
    }
}

impl Clone for Expression {
    #[verifier::loop_isolation(false)]
    fn clone(&self) -> (r: Self)
        ensures
            r@ == self@,
        decreases self,
    {
        match self {
            Expression::Empty => Expression::Empty,
            Expression::External => Expression::External,
            Expression::NumberValue { value } => Expression::NumberValue { value: value.clone() },
            Expression::VariableAccess { variable } => Expression::VariableAccess {
                variable: variable.clone(),
            },
            Expression::Math { var1, var2, math } => Expression::Math {
                var1: Box::new((**var1).clone()),
                var2: Box::new((**var2).clone()),
                math: *math,
            },
            Expression::FunctionInvocation { function, arguments } => {
                let mut copies: Vec<Expression> = Vec::new();
                let mut i: usize = 0;
                while i < arguments.len()
                    invariant
                        i <= arguments.len(),
                        copies.len() == i,
                        forall|j: int| 0 <= j < i ==> copies@[j]@ == arguments@[j]@,
                    decreases arguments.len() - i,
                {
                    proof {
                        vstd::std_specs::vec::axiom_vec_index_decreases(*arguments, i as int);
                    }
                    copies.push(arguments[i].clone());
                    i += 1;
                }
                assert(expression_views(copies@) =~= expression_views(arguments@));
                Expression::FunctionInvocation { function: function.clone(), arguments: copies }
            },
            Expression::VariableAssignment { variable, value } => Expression::VariableAssignment {
                variable: variable.clone(),
                value: Box::new((**value).clone()),
            },
            Expression::Pointer { to } => Expression::Pointer { to: to.clone() },
        }
    }
}

/// The views of a list that grew by one expression are the views of the list
/// and the view of the expression.
pub proof fn lemma_expression_views_push(list: Seq<Expression>, expression: Expression)
    ensures
        expression_views(list.push(expression)) == expression_views(list).push(expression@),
{
    assert(expression_views(list.push(expression)) =~= expression_views(list).push(expression@));
}

/// The texts of the strings `list`, in order.
pub open spec fn text_views(list: Seq<String>) -> Seq<Seq<char>> {
    list.map_values(|s: String| s@)
}

/// Copies a list of strings.
pub fn clone_strings(list: &Vec<String>) -> (r: Vec<String>)
    ensures
        text_views(r@) == text_views(list@),
{
    let mut copies: Vec<String> = Vec::new();
    let mut i: usize = 0;
    while i < list.len()
        invariant
            i <= list.len(),
            copies.len() == i,
            forall|j: int| 0 <= j < i ==> copies@[j]@ == list@[j]@,
        decreases list.len() - i,
    {
        copies.push(list[i].clone());
        i += 1;
    }
    assert(text_views(copies@) =~= text_views(list@));
    copies
}

/// Copies a list of expressions.
pub fn clone_expressions(list: &Vec<Expression>) -> (r: Vec<Expression>)
    ensures
        expression_views(r@) == expression_views(list@),
{
    let mut copies: Vec<Expression> = Vec::new();
    let mut i: usize = 0;
    while i < list.len()
        invariant
            i <= list.len(),
            copies.len() == i,
            forall|j: int| 0 <= j < i ==> copies@[j]@ == list@[j]@,
        decreases list.len() - i,
    {
        copies.push(list[i].clone());
        i += 1;
    }
    assert(expression_views(copies@) =~= expression_views(list@));
    copies
}

/// Copies a list of unresolved expressions.
pub fn clone_parts(list: &Vec<PartExpression>) -> (r: Vec<PartExpression>)
    ensures
        part_views(r@) == part_views(list@),
{
    let mut copies: Vec<PartExpression> = Vec::new();
    let mut i: usize = 0;
    while i < list.len()
        invariant
            i <= list.len(),
            copies.len() == i,
            forall|j: int| 0 <= j < i ==> copies@[j]@ == list@[j]@,
        decreases list.len() - i,
    {
        copies.push(list[i].clone());
        i += 1;
    }
    assert(part_views(copies@) =~= part_views(list@));
    copies
}

/// A function of the program. While the program is parsed, `pre_definition`
/// holds its body as it was read and `definition` is empty; afterwards
/// `definition` holds the resolved body.
#[derive(Debug)]
pub struct Function {
    pub name: String,
    pub definition: Expression,
    pub parameters: Vec<String>,
    pub pre_definition: PartExpression,
    pub cached: bool,
}

/// What a [`Function`] denotes.
pub ghost struct FunctionView {
    pub name: Seq<char>,
    pub definition: ExpressionView,
    pub parameters: Seq<Seq<char>>,
    pub pre_definition: PartView,
    pub cached: bool,
}

impl View for Function {
    type V = FunctionView;

    open spec fn view(&self) -> FunctionView {
        FunctionView {
            name: self.name@,
            definition: self.definition@,
            parameters: text_views(self.parameters@),
            pre_definition: self.pre_definition@,
            cached: self.cached,
        }
    }
}

impl Clone for Function {
    fn clone(&self) -> (r: Self)
        ensures
            r@ == self@,
    {
        Function {
            name: self.name.clone(),
            definition: self.definition.clone(),
            parameters: clone_strings(&self.parameters),
            pre_definition: self.pre_definition.clone(),
            cached: self.cached,
        }
    }
}

/// A variable of the program. While the program is parsed, `pre_definition`
/// holds its definition as it was read and `definition` is empty; afterwards
/// `definition` holds the resolved definition.
#[derive(Debug)]
pub struct Variable {
    pub name: String,
    pub definition: Expression,
    pub wherepart: Vec<Expression>,
    pub pre_definition: PartExpression,
    pub pre_wherepart: Vec<PartExpression>,
    pub constant: bool,
}

/// What a [`Variable`] denotes.
pub ghost struct VariableView {
    pub name: Seq<char>,
    pub definition: ExpressionView,
    pub wherepart: Seq<ExpressionView>,
    pub pre_definition: PartView,
    pub pre_wherepart: Seq<PartView>,
    pub constant: bool,
}

impl View for Variable {
    type V = VariableView;

    open spec fn view(&self) -> VariableView {
        VariableView {
            name: self.name@,
            definition: self.definition@,
            wherepart: expression_views(self.wherepart@),
            pre_definition: self.pre_definition@,
            pre_wherepart: part_views(self.pre_wherepart@),
            constant: self.constant,
        }
    }
}

impl Clone for Variable {
    fn clone(&self) -> (r: Self)
        ensures
            r@ == self@,
    {
        Variable {
            name: self.name.clone(),
            definition: self.definition.clone(),
            wherepart: clone_expressions(&self.wherepart),
            pre_definition: self.pre_definition.clone(),
            pre_wherepart: clone_parts(&self.pre_wherepart),
            constant: self.constant,
        }
    }
}

/// The views of the variables `list`, in order.
pub open spec fn variable_views(list: Seq<Variable>) -> Seq<VariableView> {
    list.map_values(|v: Variable| v@)
}

/// The views of the functions `list`, in order.
pub open spec fn function_views(list: Seq<Function>) -> Seq<FunctionView> {
    list.map_values(|f: Function| f@)
}

/// Copies a list of variables.
pub fn clone_variables(list: &Vec<Variable>) -> (r: Vec<Variable>)
    ensures
        variable_views(r@) == variable_views(list@),
{
    let mut copies: Vec<Variable> = Vec::new();
    let mut i: usize = 0;
    while i < list.len()
        invariant
            i <= list.len(),
            copies.len() == i,
            forall|j: int| 0 <= j < i ==> copies@[j]@ == list@[j]@,
        decreases list.len() - i,
    {
        copies.push(list[i].clone());
        i += 1;
    }
    assert(variable_views(copies@) =~= variable_views(list@));
    copies
}

/// Copies a list of functions.
pub fn clone_functions(list: &Vec<Function>) -> (r: Vec<Function>)
    ensures
        function_views(r@) == function_views(list@),
{
    let mut copies: Vec<Function> = Vec::new();
    let mut i: usize = 0;
    while i < list.len()
        invariant
            i <= list.len(),
            copies.len() == i,
            forall|j: int| 0 <= j < i ==> copies@[j]@ == list@[j]@,
        decreases list.len() - i,
    {
        copies.push(list[i].clone());
        i += 1;
    }
    assert(function_views(copies@) =~= function_views(list@));
    copies
}

/// A resolved program: its functions, its variables, and the expressions
/// that stand outside every declaration, in the order in which they run.
#[derive(Debug)]
pub struct AST {
    pub functions: Vec<Function>,
    pub variables: Vec<Variable>,
    pub loose_expressions: Vec<Expression>,
}

/// What an [`AST`] denotes.
pub ghost struct AstView {
    pub functions: Seq<FunctionView>,
    pub variables: Seq<VariableView>,
    pub loose_expressions: Seq<ExpressionView>,
}

impl View for AST {
    type V = AstView;

    open spec fn view(&self) -> AstView {
        AstView {
            functions: function_views(self.functions@),
            variables: variable_views(self.variables@),
            loose_expressions: expression_views(self.loose_expressions@),
        }
    }
}

impl Clone for AST {
    fn clone(&self) -> (r: Self)
        ensures
            r@ == self@,
    {
        AST {
            functions: clone_functions(&self.functions),
            variables: clone_variables(&self.variables),
            loose_expressions: clone_expressions(&self.loose_expressions),
        }
    }
}

/// Whether the two lists hold expressions with the same views, in order.
#[verifier::loop_isolation(false)]
pub fn expressions_equal(left: &Vec<Expression>, right: &Vec<Expression>) -> (r: bool)
    ensures
        r == (expression_views(left@) == expression_views(right@)),
    decreases left@, 0int,
{
    if left.len() != right.len() {
        assert(expression_views(left@).len() != expression_views(right@).len());
        return false;
    }
    let mut i: usize = 0;
    while i < left.len()
        invariant
            i <= left.len(),
            forall|j: int| 0 <= j < i ==> left@[j]@ == right@[j]@,
        decreases left.len() - i,
    {
        if !left[i].equals(&right[i]) {
            assert(expression_views(left@)[i as int] != expression_views(right@)[i as int]);
            return false;
        }
        i += 1;
    }
    assert(expression_views(left@) =~= expression_views(right@));
    true
}

} // verus!
