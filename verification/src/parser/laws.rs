//! What holds of every parse.

use crate::error::SyntaxError;
use crate::lexer::LexedToken;
use crate::lexer::TokenKind;
use crate::ast::ExpressionView;
use crate::ast::FunctionView;
use crate::ast::VariableView;
use crate::error::SyntaxErrorKind;
use crate::parser::expression::declares;
use crate::parser::expression::declares_constant;
use crate::parser::expression::infix_level;
use crate::parser::expression::operand_level;
use crate::parser::expression::has_function;
use crate::parser::expression::resolve;
use crate::parser::expression::resolve_list;
use crate::parser::resolve_variables;
use crate::parser::expression::parse_infix;
use crate::parser::expression::parse_infixes;
use crate::parser::expression::parse_part;
use crate::parser::expression::parse_prefix;
use crate::parser::expression::PartView;
use crate::parser::expression::Precedence;
use vstd::prelude::*;

verus! {

/// Whether a token of kind `kind` joins two operands as an operator does:
/// it binds at a level of its own and opens no call.
pub open spec fn is_operator(kind: TokenKind) -> bool {
    infix_level(kind) != Precedence::Lowest && kind != TokenKind::OpenParenthesis
}

/// The tree of the name that the token `token` holds.
pub open spec fn name_of(token: LexedToken) -> PartView {
    PartView::Identifier { val: token.content@, token }
}

/// The tree of `left` and `right` joined by the operator `operator`.
pub open spec fn joined(left: PartView, operator: LexedToken, right: PartView) -> PartView {
    PartView::InfixOperator {
        operator: operator.content@,
        left: Box::new(left),
        right: Box::new(right),
        token: operator,
    }
}

/// Whether, of two operators between three operands, the second takes the
/// operand between them: it binds more strongly than the first, or both are
/// assignments.
pub open spec fn takes_operand_between(first: TokenKind, second: TokenKind) -> bool {
    if first == TokenKind::Assign {
        second == TokenKind::Assign
    } else {
        infix_level(second).rank() > infix_level(first).rank()
    }
}

/// Of two operators between three names, the second takes the name between
/// them only where it binds more strongly than the first; else the first
/// does. Operators of one level so group from the left. Assignments alone
/// group from the right.
pub proof fn lemma_precedence(tokens: Seq<LexedToken>)
    requires
        tokens.len() == 5,
        tokens[0].kind() == TokenKind::Identifier,
        tokens[2].kind() == TokenKind::Identifier,
        tokens[4].kind() == TokenKind::Identifier,
        is_operator(tokens[1].kind()),
        is_operator(tokens[3].kind()),
    ensures
        takes_operand_between(tokens[1].kind(), tokens[3].kind()) ==> parse_part(
            tokens,
            0,
            Precedence::Lowest,
        ) == Ok::<(PartView, int), SyntaxError>(
            (
                joined(
                    name_of(tokens[0]),
                    tokens[1],
                    joined(name_of(tokens[2]), tokens[3], name_of(tokens[4])),
                ),
                5,
            ),
        ),
        !takes_operand_between(tokens[1].kind(), tokens[3].kind()) ==> parse_part(
            tokens,
            0,
            Precedence::Lowest,
        ) == Ok::<(PartView, int), SyntaxError>(
            (
                joined(
                    joined(name_of(tokens[0]), tokens[1], name_of(tokens[2])),
                    tokens[3],
                    name_of(tokens[4]),
                ),
                5,
            ),
        ),
{
    let a = name_of(tokens[0]);
    let b = name_of(tokens[2]);
    let c = name_of(tokens[4]);
    let first = infix_level(tokens[1].kind());
    let second = infix_level(tokens[3].kind());
    let limit = operand_level(tokens[1].kind(), first);
    let inner = operand_level(tokens[3].kind(), second);
    let done = |tree: PartView, next: int| Ok::<(PartView, int), SyntaxError>((tree, next));
    assert(parse_prefix(tokens, 1, tokens[0]) == done(a, 1));
    assert(parse_prefix(tokens, 3, tokens[2]) == done(b, 3));
    assert(parse_prefix(tokens, 5, tokens[4]) == done(c, 5));
    let bc = joined(b, tokens[3], c);
    let ab = joined(a, tokens[1], b);
    assert(parse_infixes(tokens, 5, bc, limit) == done(bc, 5));
    assert(parse_infixes(tokens, 5, joined(a, tokens[1], bc), Precedence::Lowest) == done(
        joined(a, tokens[1], bc),
        5,
    ));
    assert(parse_infixes(tokens, 5, joined(ab, tokens[3], c), Precedence::Lowest) == done(
        joined(ab, tokens[3], c),
        5,
    ));
    assert(parse_infixes(tokens, 5, c, inner) == done(c, 5));
    assert(parse_part(tokens, 4, inner) == done(c, 5));
    assert(parse_infix(tokens, 4, b, tokens[3], second) == done(bc, 5));
    assert(takes_operand_between(tokens[1].kind(), tokens[3].kind()) <==> second.rank()
        > limit.rank());
    if second.rank() > limit.rank() {
        assert(parse_infixes(tokens, 3, b, limit) == done(bc, 5));
        assert(parse_part(tokens, 2, limit) == done(bc, 5));
        assert(parse_infix(tokens, 2, a, tokens[1], first) == done(joined(a, tokens[1], bc), 5));
        assert(parse_infixes(tokens, 1, a, Precedence::Lowest) == done(
            joined(a, tokens[1], bc),
            5,
        ));
    } else {
        assert(parse_infixes(tokens, 3, b, limit) == done(b, 3));
        assert(parse_part(tokens, 2, limit) == done(b, 3));
        assert(parse_infix(tokens, 2, a, tokens[1], first) == done(ab, 3));
        assert(parse_infix(tokens, 4, ab, tokens[3], second) == done(joined(ab, tokens[3], c), 5));
        assert(parse_infixes(tokens, 3, ab, Precedence::Lowest) == done(joined(ab, tokens[3], c), 5));
        assert(parse_infixes(tokens, 1, a, Precedence::Lowest) == done(joined(ab, tokens[3], c), 5));
    }
}

/// The tree of an assignment of `right` to the name that `name` holds.
pub open spec fn assignment_to(name: LexedToken, sign: LexedToken, right: PartView) -> PartView {
    PartView::InfixOperator {
        operator: "="@,
        left: Box::new(name_of(name)),
        right: Box::new(right),
        token: sign,
    }
}

/// An assignment to a name whose first declaration is a constant does not
/// resolve, whatever is assigned; an assignment to any other declared name
/// resolves where what is assigned does.
pub proof fn lemma_constant_protection(
    name: LexedToken,
    sign: LexedToken,
    right: PartView,
    variables: Seq<VariableView>,
    functions: Seq<FunctionView>,
)
    requires
        declares(variables, name.content@),
    ensures
        declares_constant(variables, name.content@) ==> resolve(
            assignment_to(name, sign, right),
            variables,
            functions,
        ) == Err::<ExpressionView, SyntaxError>(
            SyntaxError::at(SyntaxErrorKind::ConstantReassigned, sign),
        ),
        !declares_constant(variables, name.content@) ==> resolve(
            assignment_to(name, sign, right),
            variables,
            functions,
        ) == match resolve(right, variables, functions) {
            Err(e) => Err::<ExpressionView, SyntaxError>(e),
            Ok(value) => Ok(
                ExpressionView::VariableAssignment {
                    variable: name.content@,
                    value: Box::new(value),
                },
            ),
        },
{
    assert(resolve(name_of(name), variables, functions) == Ok::<ExpressionView, SyntaxError>(
        ExpressionView::VariableAccess { variable: name.content@ },
    ));
}

/// A name that is declared anywhere among the variables resolves, and every
/// definition is resolved among all the variables: a definition may use a
/// variable that is declared after it.
pub proof fn lemma_forward_reference(
    list: Seq<VariableView>,
    n: int,
    variables: Seq<VariableView>,
    functions: Seq<FunctionView>,
    name: LexedToken,
)
    requires
        0 <= n <= list.len(),
    ensures
        declares(variables, name.content@) ==> resolve(name_of(name), variables, functions) == Ok::<
            ExpressionView,
            SyntaxError,
        >(ExpressionView::VariableAccess { variable: name.content@ }),
        resolve_variables(list, n, variables, functions) matches Ok(resolved) ==> resolved.len() == n
            && forall|i: int|
            0 <= i < n ==> resolve(list[i].pre_definition, variables, functions) == Ok::<
                ExpressionView,
                SyntaxError,
            >((#[trigger] resolved[i]).definition),
    decreases n,
{
    if n > 0 {
        lemma_forward_reference(list, n - 1, variables, functions, name);
    }
}

/// Whether every name in `expression` is known: each variable that is
/// read, referred to or assigned is among `variables`, and each call has a
/// function of its name and its number of arguments among `functions`.
pub open spec fn names_known(
    expression: ExpressionView,
    variables: Seq<VariableView>,
    functions: Seq<FunctionView>,
) -> bool
    decreases expression,
{
    match expression {
        ExpressionView::VariableAccess { variable } => declares(variables, variable),
        ExpressionView::Pointer { to } => declares(variables, to),
        ExpressionView::Math { var1, var2, math } => names_known(*var1, variables, functions)
            && names_known(*var2, variables, functions),
        ExpressionView::FunctionInvocation { function, arguments } => has_function(
            functions,
            function,
            arguments.len(),
        ) && forall|i: int|
            0 <= i < arguments.len() ==> names_known(#[trigger] arguments[i], variables, functions),
        ExpressionView::VariableAssignment { variable, value } => declares(variables, variable)
            && !declares_constant(variables, variable) && names_known(*value, variables, functions),
        _ => true,
    }
}

/// Every name in an expression that a tree resolves to is known, and no
/// constant is assigned to in it.
pub proof fn lemma_resolved_names_known(
    tree: PartView,
    variables: Seq<VariableView>,
    functions: Seq<FunctionView>,
)
    requires
        resolve(tree, variables, functions) is Ok,
    ensures
        names_known(resolve(tree, variables, functions)->Ok_0, variables, functions),
    decreases tree,
{
    match tree {
        PartView::PrefixOperator { prefix, expression, token } => {
            reveal_with_fuel(names_known, 3);
            lemma_resolved_names_known(*expression, variables, functions);
        },
        PartView::InfixOperator { operator, left, right, token } => {
            lemma_resolved_names_known(*left, variables, functions);
            if operator == "="@ {
                if resolve(*right, variables, functions) is Ok {
                    lemma_resolved_names_known(*right, variables, functions);
                }
            } else {
                lemma_resolved_names_known(*right, variables, functions);
            }
        },
        PartView::FunctionInvocation { val, arguments, token } => {
            lemma_resolved_list_names_known(arguments, variables, functions);
        },
        _ => {},
    }
}

/// Every name in the expressions that a list of trees resolves to is known,
/// and there are as many expressions as trees.
pub proof fn lemma_resolved_list_names_known(
    list: Seq<PartView>,
    variables: Seq<VariableView>,
    functions: Seq<FunctionView>,
)
    requires
        resolve_list(list, variables, functions) is Ok,
    ensures
        resolve_list(list, variables, functions)->Ok_0.len() == list.len(),
        forall|i: int|
            0 <= i < list.len() ==> names_known(
                #[trigger] resolve_list(list, variables, functions)->Ok_0[i],
                variables,
                functions,
            ),
    decreases list,
{
    if list.len() > 0 {
        lemma_resolved_list_names_known(list.drop_last(), variables, functions);
        lemma_resolved_names_known(list.last(), variables, functions);
    }
}

} // verus!
