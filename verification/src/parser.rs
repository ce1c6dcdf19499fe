//! The token cursor and the two-phase declaration resolver.

use crate::ast::clone_variables;
use crate::ast::expression_views;
use crate::ast::function_views;
use crate::ast::lemma_expression_views_push;
use crate::ast::text_views;
use crate::ast::variable_views;
use crate::ast::AstView;
use crate::ast::Expression;
use crate::ast::ExpressionView;
use crate::ast::Function;
use crate::ast::FunctionView;
use crate::ast::Variable;
use crate::ast::VariableView;
use crate::ast::AST;
use crate::error::SyntaxError;
use crate::error::SyntaxErrorKind;
use crate::interpreter::runtime::external_views;
use crate::interpreter::runtime::ExternalFunctionView;
use crate::interpreter::runtime::ExternalRuntimeFunction;
use crate::lexer::LexedToken;
use crate::lexer::TokenKind;
use crate::number::decimal_digits;
use crate::parser::expression::actual_parse_expression;
use crate::parser::expression::lemma_part_views_push;
use crate::parser::expression::parse_expression_part;
use crate::parser::expression::parse_part;
use crate::parser::expression::part_views;
use crate::parser::expression::resolve;
use crate::parser::expression::PartExpression;
use crate::parser::expression::PartView;
use crate::parser::expression::Precedence;
use crate::text::push_decimal;
use vstd::prelude::*;

pub mod expression;
pub mod laws;

verus! {

/// A sequence of tokens with a cursor: the tokens before the cursor are consumed.
#[derive(Debug)]
pub struct TokenQueue {
    pub elements: Vec<LexedToken>,
    pub pointer: usize,
}

/// The tokens of `tokens` whose kind is not `kind`, in order.
pub open spec fn without_kind(tokens: Seq<LexedToken>, kind: TokenKind) -> Seq<LexedToken> {
    tokens.filter(|t: LexedToken| t.kind() != kind)
}

/// A queue over `elements` with the cursor on the first token.
pub fn token_queue(elements: Vec<LexedToken>) -> (r: TokenQueue)
    ensures
        r.elements == elements,
        r.pointer == 0,
{
    TokenQueue { elements, pointer: 0 }
}

impl TokenQueue {
    /// The tokens that are not consumed yet.
    pub open spec fn remaining(&self) -> Seq<LexedToken> {
        if self.pointer <= self.elements.len() {
            self.elements@.skip(self.pointer as int)
        } else {
            Seq::empty()
        }
    }

    /// Returns a copy of the token at the cursor and moves the cursor past it.
    pub fn peek(&mut self) -> (r: LexedToken)
        requires
            old(self).pointer < old(self).elements.len(),
        ensures
            r == old(self).elements[old(self).pointer as int],
            final(self).elements == old(self).elements,
            final(self).pointer == old(self).pointer + 1,
    {
        let token = self.get().clone();
        self.remove();
        token
    }

    /// Moves the cursor back by one token.
    pub fn back(&mut self)
        requires
            old(self).pointer > 0,
        ensures
            final(self).elements == old(self).elements,
            final(self).pointer == old(self).pointer - 1,
    {
        self.pointer -= 1;
    }

    /// The token at the cursor.
    pub fn get(&self) -> (r: &LexedToken)
        requires
            self.pointer < self.elements.len(),
        ensures
            *r == self.elements[self.pointer as int],
    {
        &self.elements[self.pointer]
    }

    /// Moves the cursor past the token that it is on.
    pub fn remove(&mut self)
        requires
            old(self).pointer < old(self).elements.len(),
        ensures
            final(self).elements == old(self).elements,
            final(self).pointer == old(self).pointer + 1,
    {
        self.pointer += 1;
    }

    /// Whether every token is consumed.
    pub fn is_empty(&self) -> (r: bool)
        ensures
            r == (self.pointer >= self.elements.len()),
            r == (self.remaining().len() == 0),
    {
        self.pointer >= self.elements.len()
    }

    /// Whether a token is left to consume.
    pub fn is_not_empty(&self) -> (r: bool)
        ensures
            r == (self.pointer < self.elements.len()),
    {
        !self.is_empty()
    }

    /// Adds `token` at the end.
    pub fn push(&mut self, token: LexedToken)
        ensures
            final(self).elements@ == old(self).elements@.push(token),
            final(self).pointer == old(self).pointer,
    {
        self.elements.push(token);
    }

    /// Adds every token of `other` at the end, consumed or not.
    pub fn extend(&mut self, other: TokenQueue)
        ensures
            final(self).elements@ == old(self).elements@ + other.elements@,
            final(self).pointer == old(self).pointer,
    {
        let mut tokens = other.elements;
        self.elements.append(&mut tokens);
    }

    /// Adds the tokens of `other` that are not consumed yet at the end.
    pub fn extend_left(&mut self, other: TokenQueue)
        ensures
            final(self).elements@ == old(self).elements@ + other.remaining(),
            final(self).pointer == old(self).pointer,
    {
        if other.pointer > other.elements.len() {
            assert(self.elements@ =~= old(self).elements@ + other.remaining());
            return ;
        }
        let mut i: usize = other.pointer;
        assert(self.elements@ =~= old(self).elements@ + other.elements@.subrange(
            other.pointer as int,
            i as int,
        ));
        while i < other.elements.len()
            invariant
                other.pointer <= i <= other.elements.len(),
                self.pointer == old(self).pointer,
                self.elements@ == old(self).elements@ + other.elements@.subrange(
                    other.pointer as int,
                    i as int,
                ),
            decreases other.elements.len() - i,
        {
            self.elements.push(other.elements[i].clone());
            i += 1;
            assert(other.elements@.subrange(other.pointer as int, i as int)
                =~= other.elements@.subrange(other.pointer as int, i - 1).push(
                other.elements@[i - 1],
            ));
            assert(self.elements@ =~= old(self).elements@ + other.elements@.subrange(
                other.pointer as int,
                i as int,
            ));
        }
        assert(self.elements@ =~= old(self).elements@ + other.remaining());
    }

    /// Removes every token of kind `kind` and puts the cursor on the first token.
    pub fn remove_all(&mut self, kind: TokenKind)
        ensures
            final(self).elements@ == without_kind(old(self).elements@, kind),
            final(self).pointer == 0,
    {
        let mut kept: Vec<LexedToken> = Vec::new();
        let mut i: usize = 0;
        while i < self.elements.len()
            invariant
                i <= self.elements.len(),
                self.elements == old(self).elements,
                kept@ == without_kind(self.elements@.take(i as int), kind),
            decreases self.elements.len() - i,
        {
            let ghost before = self.elements@.take(i as int);
            if self.elements[i].token_type().kind() != kind {
                kept.push(self.elements[i].clone());
            }
            i += 1;
            proof {
                let now = self.elements@.take(i as int);
                assert(now.drop_last() =~= before);
                assert(now.last() == self.elements@[i - 1]);
                reveal(Seq::filter);
            }
        }
        assert(self.elements@.take(i as int) =~= self.elements@);
        self.elements = kept;
        self.pointer = 0;
    }
}

/// The tokens of a declaration's body that starts at `pos`, the position after
/// it, and the lines that are then still open. `lines` lines are open at
/// `pos`: a pipe opens one more, a line end closes one, and the body ends
/// where none is open, where the tokens end, or before a token of kind `stop`.
/// Pipes, line ends and whitespace are no part of the body.
pub open spec fn capture(tokens: Seq<LexedToken>, pos: int, lines: int, stop: Option<TokenKind>) -> (
    Seq<LexedToken>,
    int,
    int,
)
    decreases tokens.len() - pos,
{
    if lines <= 0 || pos < 0 || pos >= tokens.len() {
        (Seq::empty(), pos, lines)
    } else {
        let token = tokens[pos];
        let kind = token.kind();
        if kind == TokenKind::Pipe {
            capture(tokens, pos + 1, lines + 1, stop)
        } else if kind == TokenKind::NewLine {
            capture(tokens, pos + 1, lines - 1, stop)
        } else if kind == TokenKind::Whitespace {
            capture(tokens, pos + 1, lines, stop)
        } else if stop == Some(kind) {
            (Seq::empty(), pos, lines)
        } else {
            let rest = capture(tokens, pos + 1, lines, stop);
            (seq![token] + rest.0, rest.1, rest.2)
        }
    }
}

/// A body ends at or after the position at which it starts, inside the
/// tokens, and after its first token unless it stops before that token.
pub proof fn lemma_capture_bounds(
    tokens: Seq<LexedToken>,
    pos: int,
    lines: int,
    stop: Option<TokenKind>,
)
    requires
        0 <= pos <= tokens.len(),
    ensures
        pos <= capture(tokens, pos, lines, stop).1 <= tokens.len(),
        capture(tokens, pos, lines, stop).2 <= lines + (capture(tokens, pos, lines, stop).1 - pos),
        lines > 0 && pos < tokens.len() && stop != Some(tokens[pos].kind()) ==> pos < capture(
            tokens,
            pos,
            lines,
            stop,
        ).1,
    decreases tokens.len() - pos,
{
    if !(lines <= 0 || pos >= tokens.len()) {
        let kind = tokens[pos].kind();
        if kind == TokenKind::Pipe {
            lemma_capture_bounds(tokens, pos + 1, lines + 1, stop);
        } else if kind == TokenKind::NewLine {
            lemma_capture_bounds(tokens, pos + 1, lines - 1, stop);
        } else if kind == TokenKind::Whitespace {
            lemma_capture_bounds(tokens, pos + 1, lines, stop);
        } else if stop == Some(kind) {
        } else {
            lemma_capture_bounds(tokens, pos + 1, lines, stop);
        }
    }
}

/// The tree of a declaration's body made of the tokens `body`.
pub open spec fn parse_body(body: Seq<LexedToken>) -> Result<PartView, SyntaxError> {
    match parse_part(body, 0, Precedence::Lowest) {
        Err(e) => Err(e),
        Ok((tree, _)) => Ok(tree),
    }
}

/// A variable of which nothing is known but its kind.
pub open spec fn blank_variable(constant: bool) -> VariableView {
    VariableView {
        name: Seq::empty(),
        definition: ExpressionView::Empty,
        wherepart: Seq::empty(),
        pre_definition: PartView::Empty,
        pre_wherepart: Seq::empty(),
        constant,
    }
}

/// A function of which nothing is known yet.
pub open spec fn blank_function() -> FunctionView {
    FunctionView {
        name: Seq::empty(),
        definition: ExpressionView::Empty,
        parameters: Seq::empty(),
        pre_definition: PartView::Empty,
        cached: false,
    }
}

/// The variable that the tokens from `pos` on declare, and the position after
/// its declaration. `draft` holds what the tokens before `pos` said of it, and
/// `lines` lines of the declaration are open at `pos`.
pub open spec fn scan_variable(tokens: Seq<LexedToken>, pos: int, lines: int, draft: VariableView) -> Result<
    (VariableView, int),
    SyntaxError,
>
    decreases tokens.len() - pos,
{
    if lines <= 0 || pos < 0 || pos >= tokens.len() {
        Ok((draft, pos))
    } else {
        let token = tokens[pos];
        match token.kind() {
            TokenKind::Pipe => scan_variable(tokens, pos + 1, lines + 1, draft),
            TokenKind::NewLine => scan_variable(tokens, pos + 1, lines - 1, draft),
            TokenKind::Whitespace => scan_variable(tokens, pos + 1, lines, draft),
            TokenKind::Assign => if draft.name.len() == 0 {
                Err(SyntaxError::at(SyntaxErrorKind::ExpectedIdentifier, token))
            } else if !(draft.pre_definition is Empty) {
                Err(SyntaxError::at(SyntaxErrorKind::InvalidToken, token))
            } else {
                let body = capture(tokens, pos + 1, lines, Some(TokenKind::Where));
                match parse_body(body.0) {
                    Err(e) => Err(e),
                    Ok(tree) => {
                        proof {
                            lemma_capture_bounds(tokens, pos + 1, lines, Some(TokenKind::Where));
                        }
                        scan_variable(
                            tokens,
                            body.1,
                            body.2,
                            VariableView { pre_definition: tree, ..draft },
                        )
                    },
                }
            },
            TokenKind::Identifier => if draft.name.len() > 0 {
                Err(SyntaxError::at(SyntaxErrorKind::InvalidToken, token))
            } else {
                scan_variable(tokens, pos + 1, lines, VariableView { name: token.content@, ..draft })
            },
            TokenKind::Where => if draft.name.len() == 0 {
                Err(SyntaxError::at(SyntaxErrorKind::ExpectedIdentifier, token))
            } else if draft.pre_definition is Empty {
                Err(SyntaxError::at(SyntaxErrorKind::ExpectedDefinition, token))
            } else {
                Err(SyntaxError::at(SyntaxErrorKind::GuardNotSupported, token))
            },
            _ => if draft.name.len() > 0 {
                Err(SyntaxError::at(SyntaxErrorKind::ExpectedAssign, token))
            } else {
                Err(SyntaxError::at(SyntaxErrorKind::ExpectedIdentifier, token))
            },
        }
    }
}

/// Whether a token of kind `kind` is among `tokens`.
pub open spec fn has_kind(tokens: Seq<LexedToken>, kind: TokenKind) -> bool {
    exists|i: int| 0 <= i < tokens.len() && (#[trigger] tokens[i]).kind() == kind
}

/// The names that the parameter list `span` adds to `parameters`, read from
/// `pos` on. `first` says that no parameter of this list was read yet. What
/// follows the closing parenthesis is no parameter.
pub open spec fn scan_parameters(
    span: Seq<LexedToken>,
    pos: int,
    first: bool,
    parameters: Seq<Seq<char>>,
) -> Result<Seq<Seq<char>>, SyntaxError>
    decreases span.len() - pos,
{
    if pos < 0 || pos >= span.len() {
        Ok(parameters)
    } else {
        let token = span[pos];
        if token.kind() == TokenKind::CloseParenthesis {
            Ok(parameters)
        } else if first {
            if token.kind() == TokenKind::Identifier {
                scan_parameters(span, pos + 1, false, parameters.push(token.content@))
            } else {
                Err(SyntaxError::at(SyntaxErrorKind::IdentifierExpected, token))
            }
        } else if token.kind() == TokenKind::Comma {
            if pos + 1 >= span.len() {
                Err(SyntaxError::at(SyntaxErrorKind::IdentifierExpected, token))
            } else if span[pos + 1].kind() == TokenKind::Identifier {
                scan_parameters(span, pos + 2, false, parameters.push(span[pos + 1].content@))
            } else {
                Err(SyntaxError::at(SyntaxErrorKind::IdentifierExpected, span[pos + 1]))
            }
        } else {
            Err(SyntaxError::at(SyntaxErrorKind::CloseOrCommaExpected, token))
        }
    }
}

/// The function that the tokens from `pos` on declare, and the position after
/// its declaration. `draft` holds what the tokens before `pos` said of it, and
/// `lines` lines of the declaration are open at `pos`.
pub open spec fn scan_function(tokens: Seq<LexedToken>, pos: int, lines: int, draft: FunctionView) -> Result<
    (FunctionView, int),
    SyntaxError,
>
    decreases tokens.len() - pos,
{
    if lines <= 0 || pos < 0 || pos >= tokens.len() {
        Ok((draft, pos))
    } else {
        let token = tokens[pos];
        match token.kind() {
            TokenKind::Pipe => scan_function(tokens, pos + 1, lines + 1, draft),
            TokenKind::NewLine => scan_function(tokens, pos + 1, lines - 1, draft),
            TokenKind::Whitespace => scan_function(tokens, pos + 1, lines, draft),
            TokenKind::Cache => scan_function(
                tokens,
                pos + 1,
                lines,
                FunctionView { cached: true, ..draft },
            ),
            TokenKind::OpenParenthesis => if draft.name.len() == 0 {
                Err(SyntaxError::at(SyntaxErrorKind::ExpectedIdentifier, token))
            } else if !(draft.pre_definition is Empty) {
                Err(SyntaxError::at(SyntaxErrorKind::InvalidToken, token))
            } else {
                let span = capture(tokens, pos + 1, lines, Some(TokenKind::Assign));
                match scan_parameters(span.0, 0, true, draft.parameters) {
                    Err(e) => Err(e),
                    Ok(parameters) => {
                        proof {
                            lemma_capture_bounds(tokens, pos + 1, lines, Some(TokenKind::Assign));
                        }
                        scan_function(
                            tokens,
                            span.1,
                            span.2,
                            FunctionView {
                                parameters,
                                cached: draft.cached || has_kind(span.0, TokenKind::Cache),
                                ..draft
                            },
                        )
                    },
                }
            },
            TokenKind::Assign => if draft.name.len() == 0 {
                Err(SyntaxError::at(SyntaxErrorKind::ExpectedIdentifier, token))
            } else if !(draft.pre_definition is Empty) {
                Err(SyntaxError::at(SyntaxErrorKind::InvalidToken, token))
            } else {
                let body = capture(tokens, pos + 1, lines, None);
                match parse_body(body.0) {
                    Err(e) => Err(e),
                    Ok(tree) => {
                        proof {
                            lemma_capture_bounds(tokens, pos + 1, lines, None);
                        }
                        scan_function(
                            tokens,
                            body.1,
                            body.2,
                            FunctionView { pre_definition: tree, ..draft },
                        )
                    },
                }
            },
            TokenKind::Identifier => if draft.name.len() > 0 {
                Err(SyntaxError::at(SyntaxErrorKind::InvalidToken, token))
            } else {
                scan_function(tokens, pos + 1, lines, FunctionView { name: token.content@, ..draft })
            },
            _ => if draft.name.len() > 0 {
                Err(SyntaxError::at(SyntaxErrorKind::ExpectedAssign, token))
            } else {
                Err(SyntaxError::at(SyntaxErrorKind::ExpectedIdentifier, token))
            },
        }
    }
}

/// The tree of the expression outside every declaration that starts at `pos`,
/// and the position after it. Lines without tokens give the mark of a comment.
pub open spec fn scan_loose(tokens: Seq<LexedToken>, pos: int) -> Result<(PartView, int), SyntaxError> {
    let span = capture(tokens, pos, 1, None);
    if span.0.len() == 0 {
        Ok((PartView::Comment, span.1))
    } else {
        match parse_body(span.0) {
            Err(e) => Err(e),
            Ok(tree) => Ok((tree, span.1)),
        }
    }
}

/// What the first pass over a program finds: its declarations, with their
/// bodies parsed and no name resolved.
pub ghost struct Declarations {
    pub variables: Seq<VariableView>,
    pub functions: Seq<FunctionView>,
    pub loose: Seq<PartView>,
}

/// The declarations that the tokens from `pos` on add to `found`.
pub open spec fn scan_program(tokens: Seq<LexedToken>, pos: int, found: Declarations) -> Result<
    Declarations,
    SyntaxError,
>
    decreases tokens.len() - pos,
{
    if pos < 0 || pos >= tokens.len() {
        Ok(found)
    } else {
        let kind = tokens[pos].kind();
        if kind == TokenKind::Let || kind == TokenKind::Const {
            match scan_variable(tokens, pos + 1, 1, blank_variable(kind == TokenKind::Const)) {
                Err(e) => Err(e),
                Ok((variable, next)) => if pos < next <= tokens.len() {
                    scan_program(
                        tokens,
                        next,
                        Declarations { variables: found.variables.push(variable), ..found },
                    )
                } else {
                    Ok(found)
                },
            }
        } else if kind == TokenKind::Define {
            match scan_function(tokens, pos + 1, 1, blank_function()) {
                Err(e) => Err(e),
                Ok((function, next)) => if pos < next <= tokens.len() {
                    scan_program(
                        tokens,
                        next,
                        Declarations { functions: found.functions.push(function), ..found },
                    )
                } else {
                    Ok(found)
                },
            }
        } else if kind == TokenKind::Whitespace || kind == TokenKind::NewLine {
            scan_program(tokens, pos + 1, found)
        } else {
            match scan_loose(tokens, pos) {
                Err(e) => Err(e),
                Ok((tree, next)) => if pos < next <= tokens.len() {
                    scan_program(tokens, next, Declarations { loose: found.loose.push(tree), ..found })
                } else {
                    Ok(found)
                },
            }
        }
    }
}

/// The name of the parameter at place `i` of a function that the host supplies.
pub open spec fn parameter_name(i: nat) -> Seq<char> {
    seq!['p'] + decimal_digits(i)
}

/// The function that stands in a program for the host's function `external`.
pub open spec fn external_function(external: ExternalFunctionView) -> FunctionView {
    FunctionView {
        name: external.name,
        definition: ExpressionView::External,
        parameters: Seq::new(external.parameters, |i: int| parameter_name(i as nat)),
        pre_definition: PartView::Empty,
        cached: false,
    }
}

/// The functions that stand in a program for the host's functions `externals`.
pub open spec fn external_functions(externals: Seq<ExternalFunctionView>) -> Seq<FunctionView> {
    externals.map_values(|e: ExternalFunctionView| external_function(e))
}

/// A variable that stands for the parameter `name` while a function's body is resolved.
pub open spec fn parameter_variable(name: Seq<char>) -> VariableView {
    VariableView { name, ..blank_variable(false) }
}

/// The variable `variable` with its definition resolved among `variables` and
/// `functions`.
pub open spec fn resolve_variable(
    variable: VariableView,
    variables: Seq<VariableView>,
    functions: Seq<FunctionView>,
) -> Result<VariableView, SyntaxError> {
    match resolve(variable.pre_definition, variables, functions) {
        Err(e) => Err(e),
        Ok(definition) => Ok(
            VariableView { definition, pre_definition: PartView::Empty, ..variable },
        ),
    }
}

/// The function `function` with its body resolved among `variables`, its own
/// parameters and `functions`. A function that the host supplies stays as it is.
pub open spec fn resolve_function(
    function: FunctionView,
    variables: Seq<VariableView>,
    functions: Seq<FunctionView>,
) -> Result<FunctionView, SyntaxError> {
    if function.definition is External {
        Ok(function)
    } else {
        match resolve(
            function.pre_definition,
            variables + function.parameters.map_values(|name: Seq<char>| parameter_variable(name)),
            functions,
        ) {
            Err(e) => Err(e),
            Ok(definition) => Ok(
                FunctionView { definition, pre_definition: PartView::Empty, ..function },
            ),
        }
    }
}

/// The first `n` of `list`, each resolved among `variables` and `functions`,
/// or the error of the first that has one.
pub open spec fn resolve_variables(
    list: Seq<VariableView>,
    n: int,
    variables: Seq<VariableView>,
    functions: Seq<FunctionView>,
) -> Result<Seq<VariableView>, SyntaxError>
    decreases n,
{
    if n <= 0 {
        Ok(Seq::empty())
    } else {
        match resolve_variables(list, n - 1, variables, functions) {
            Err(e) => Err(e),
            Ok(resolved) => match resolve_variable(list[n - 1], variables, functions) {
                Err(e) => Err(e),
                Ok(variable) => Ok(resolved.push(variable)),
            },
        }
    }
}

/// The first `n` of `list`, each resolved among `variables` and `functions`,
/// or the error of the first that has one.
pub open spec fn resolve_functions(
    list: Seq<FunctionView>,
    n: int,
    variables: Seq<VariableView>,
    functions: Seq<FunctionView>,
) -> Result<Seq<FunctionView>, SyntaxError>
    decreases n,
{
    if n <= 0 {
        Ok(Seq::empty())
    } else {
        match resolve_functions(list, n - 1, variables, functions) {
            Err(e) => Err(e),
            Ok(resolved) => match resolve_function(list[n - 1], variables, functions) {
                Err(e) => Err(e),
                Ok(function) => Ok(resolved.push(function)),
            },
        }
    }
}

/// The first `n` of the trees `list` that are no comments, each resolved among
/// `variables` and `functions`, or the error of the first that has one.
pub open spec fn resolve_loose(
    list: Seq<PartView>,
    n: int,
    variables: Seq<VariableView>,
    functions: Seq<FunctionView>,
) -> Result<Seq<ExpressionView>, SyntaxError>
    decreases n,
{
    if n <= 0 {
        Ok(Seq::empty())
    } else {
        match resolve_loose(list, n - 1, variables, functions) {
            Err(e) => Err(e),
            Ok(resolved) => if list[n - 1] is Comment {
                Ok(resolved)
            } else {
                match resolve(list[n - 1], variables, functions) {
                    Err(e) => Err(e),
                    Ok(expression) => Ok(resolved.push(expression)),
                }
            },
        }
    }
}

/// The program that the declarations `found` resolve to: every name is looked
/// up among all the variables and functions of `found`, wherever it stands.
pub open spec fn resolve_program(found: Declarations) -> Result<AstView, SyntaxError> {
    match resolve_variables(found.variables, found.variables.len() as int, found.variables, found.functions) {
        Err(e) => Err(e),
        Ok(variables) => match resolve_functions(
            found.functions,
            found.functions.len() as int,
            found.variables,
            found.functions,
        ) {
            Err(e) => Err(e),
            Ok(functions) => match resolve_loose(
                found.loose,
                found.loose.len() as int,
                found.variables,
                found.functions,
            ) {
                Err(e) => Err(e),
                Ok(loose_expressions) => Ok(AstView { functions, variables, loose_expressions }),
            },
        }
    }
}

/// The program that `tokens` denote beside the host's functions `externals`:
/// whitespace is dropped, the declarations are found, and then every name is
/// resolved.
pub open spec fn parse_program(tokens: Seq<LexedToken>, externals: Seq<ExternalFunctionView>) -> Result<
    AstView,
    SyntaxError,
> {
    match scan_program(
        without_kind(tokens, TokenKind::Whitespace),
        0,
        Declarations {
            variables: Seq::empty(),
            functions: external_functions(externals),
            loose: Seq::empty(),
        },
    ) {
        Err(e) => Err(e),
        Ok(found) => resolve_program(found),
    }
}

/// Whether `r`, with the cursor of a queue over `tokens` left at `pointer`, is
/// what `expected` says of a variable.
pub open spec fn variable_scanned_as(
    r: Result<Variable, SyntaxError>,
    pointer: int,
    expected: Result<(VariableView, int), SyntaxError>,
) -> bool {
    match expected {
        Ok((variable, next)) => r is Ok && r->Ok_0@ == variable && pointer == next,
        Err(e) => r is Err && r->Err_0 == e,
    }
}

/// Whether `r`, with the cursor of a queue over `tokens` left at `pointer`, is
/// what `expected` says of a function.
pub open spec fn function_scanned_as(
    r: Result<Function, SyntaxError>,
    pointer: int,
    expected: Result<(FunctionView, int), SyntaxError>,
) -> bool {
    match expected {
        Ok((function, next)) => r is Ok && r->Ok_0@ == function && pointer == next,
        Err(e) => r is Err && r->Err_0 == e,
    }
}

/// Whether `r`, with the cursor of a queue over `tokens` left at `pointer`, is
/// what `expected` says of a tree.
pub open spec fn tree_scanned_as(
    r: Result<PartExpression, SyntaxError>,
    pointer: int,
    expected: Result<(PartView, int), SyntaxError>,
) -> bool {
    match expected {
        Ok((tree, next)) => r is Ok && r->Ok_0@ == tree && pointer == next,
        Err(e) => r is Err && r->Err_0 == e,
    }
}

/// Reads the body of a declaration from the cursor on, of which `lines_left`
/// lines are open, and returns its tokens and the lines that are then open.
#[verifier::loop_isolation(false)]
fn capture_span(queue: &mut TokenQueue, lines_left: u128, stop: Option<TokenKind>) -> (r: (
    Vec<LexedToken>,
    u128,
))
    requires
        old(queue).pointer <= old(queue).elements.len(),
        lines_left <= 1 + old(queue).pointer,
    ensures
        final(queue).elements == old(queue).elements,
        old(queue).pointer <= final(queue).pointer <= old(queue).elements.len(),
        r.1 <= 1 + final(queue).pointer,
        (r.0@, final(queue).pointer as int, r.1 as int) == capture(
            old(queue).elements@,
            old(queue).pointer as int,
            lines_left as int,
            stop,
        ),
{
    let ghost tokens = queue.elements@;
    let ghost start = queue.pointer as int;
    let mut captured: Vec<LexedToken> = Vec::new();
    let mut lines: u128 = lines_left;
    assert(captured@ + capture(tokens, start, lines as int, stop).0 =~= capture(
        tokens,
        start,
        lines as int,
        stop,
    ).0);
    while lines > 0 && queue.is_not_empty()
        invariant
            queue.elements == old(queue).elements,
            tokens == old(queue).elements@,
            start <= queue.pointer <= tokens.len(),
            lines <= 1 + queue.pointer,
            capture(tokens, start, lines_left as int, stop) == (
                captured@ + capture(tokens, queue.pointer as int, lines as int, stop).0,
                capture(tokens, queue.pointer as int, lines as int, stop).1,
                capture(tokens, queue.pointer as int, lines as int, stop).2,
            ),
        decreases tokens.len() - queue.pointer,
    {
        let next = queue.peek();
        let kind = next.token_type().kind();
        let stops = match stop {
            Some(k) => k == kind,
            None => false,
        };
        if kind == TokenKind::Pipe {
            lines += 1;
        } else if kind == TokenKind::NewLine {
            lines -= 1;
        } else if kind == TokenKind::Whitespace {
        } else if stops {
            queue.back();
            assert(captured@ + Seq::<LexedToken>::empty() =~= captured@);
            return (captured, lines);
        } else {
            let ghost before = captured@;
            let ghost rest = capture(tokens, queue.pointer as int, lines as int, stop).0;
            captured.push(next);
            assert(captured@ + rest =~= before + (seq![next] + rest));
        }
    }
    assert(captured@ + Seq::<LexedToken>::empty() =~= captured@);
    (captured, lines)
}

/// Parses the tokens `body` as the body of a declaration.
fn parse_span(body: Vec<LexedToken>) -> (r: Result<PartExpression, SyntaxError>)
    ensures
        match parse_body(body@) {
            Ok(tree) => r is Ok && r->Ok_0@ == tree,
            Err(e) => r is Err && r->Err_0 == e,
        },
{
    let mut queue = token_queue(body);
    parse_expression_part(&mut queue, Precedence::Lowest)
}

/// Reads the declaration of a variable, whose keyword the cursor has just passed.
#[verifier::loop_isolation(false)]
fn pre_parse_variable(queue: &mut TokenQueue, constant: bool) -> (r: Result<Variable, SyntaxError>)
    requires
        old(queue).pointer <= old(queue).elements.len(),
    ensures
        final(queue).elements == old(queue).elements,
        r is Ok ==> old(queue).pointer <= final(queue).pointer <= old(queue).elements.len(),
        variable_scanned_as(
            r,
            final(queue).pointer as int,
            scan_variable(
                old(queue).elements@,
                old(queue).pointer as int,
                1,
                blank_variable(constant),
            ),
        ),
{
    let ghost tokens = queue.elements@;
    let ghost start = queue.pointer as int;
    let mut name = String::new();
    let mut definition = PartExpression::Empty;
    let mut lines_left: u128 = 1;
    while lines_left > 0 && queue.is_not_empty()
        invariant
            queue.elements == old(queue).elements,
            start <= queue.pointer <= tokens.len(),
            lines_left <= 1 + queue.pointer,
            scan_variable(tokens, start, 1, blank_variable(constant)) == scan_variable(
                tokens,
                queue.pointer as int,
                lines_left as int,
                VariableView {
                    name: name@,
                    pre_definition: definition@,
                    ..blank_variable(constant)
                },
            ),
        decreases tokens.len() - queue.pointer,
    {
        let next = queue.peek();
        match next.token_type().kind() {
            TokenKind::Pipe => {
                lines_left += 1;
            },
            TokenKind::NewLine => {
                lines_left -= 1;
            },
            TokenKind::Whitespace => {},
            TokenKind::Assign => {
                if name.as_str().is_empty() {
                    return Err(SyntaxError::new(SyntaxErrorKind::ExpectedIdentifier, &next));
                } else if !definition.is_empty() {
                    return Err(SyntaxError::new(SyntaxErrorKind::InvalidToken, &next));
                }
                let (body, lines) = capture_span(queue, lines_left, Some(TokenKind::Where));
                lines_left = lines;
                definition = match parse_span(body) {
                    Ok(tree) => tree,
                    Err(e) => {
                        return Err(e);
                    },
                };
            },
            TokenKind::Identifier => {
                if !name.as_str().is_empty() {
                    return Err(SyntaxError::new(SyntaxErrorKind::InvalidToken, &next));
                }
                name = next.content().clone();
            },
            TokenKind::Where => {
                if name.as_str().is_empty() {
                    return Err(SyntaxError::new(SyntaxErrorKind::ExpectedIdentifier, &next));
                } else if definition.is_empty() {
                    return Err(SyntaxError::new(SyntaxErrorKind::ExpectedDefinition, &next));
                }
                return Err(SyntaxError::new(SyntaxErrorKind::GuardNotSupported, &next));
            },
            _ => {
                if !name.as_str().is_empty() {
                    return Err(SyntaxError::new(SyntaxErrorKind::ExpectedAssign, &next));
                }
                return Err(SyntaxError::new(SyntaxErrorKind::ExpectedIdentifier, &next));
            },
        }
    }
    let variable = Variable {
        name,
        definition: Expression::Empty,
        wherepart: Vec::new(),
        pre_definition: definition,
        pre_wherepart: Vec::new(),
        constant,
    };
    assert(variable@.wherepart =~= Seq::empty());
    assert(variable@.pre_wherepart =~= Seq::empty());
    Ok(variable)
}

/// Whether a token of kind `kind` is among `tokens`.
fn contains_kind(tokens: &Vec<LexedToken>, kind: TokenKind) -> (r: bool)
    ensures
        r == has_kind(tokens@, kind),
{
    let mut i: usize = 0;
    while i < tokens.len()
        invariant
            i <= tokens.len(),
            forall|j: int| 0 <= j < i ==> (#[trigger] tokens@[j]).kind() != kind,
        decreases tokens.len() - i,
    {
        if tokens[i].token_type().kind() == kind {
            return true;
        }
        i += 1;
    }
    false
}

/// Reads the names of the parameter list `span` into `parameters`.
#[verifier::loop_isolation(false)]
fn parse_parameters(span: &Vec<LexedToken>, parameters: Vec<String>) -> (r: Result<
    Vec<String>,
    SyntaxError,
>)
    ensures
        match scan_parameters(span@, 0, true, text_views(parameters@)) {
            Ok(names) => r is Ok && text_views(r->Ok_0@) == names,
            Err(e) => r is Err && r->Err_0 == e,
        },
{
    let mut parameters = parameters;
    let ghost given = text_views(parameters@);
    let mut pos: usize = 0;
    let mut first = true;
    while pos < span.len()
        invariant
            pos <= span.len(),
            scan_parameters(span@, 0, true, given) == scan_parameters(
                span@,
                pos as int,
                first,
                text_views(parameters@),
            ),
        decreases span.len() - pos,
    {
        let token = &span[pos];
        let kind = token.token_type().kind();
        let ghost names = text_views(parameters@);
        if kind == TokenKind::CloseParenthesis {
            return Ok(parameters);
        } else if first {
            if kind != TokenKind::Identifier {
                return Err(SyntaxError::new(SyntaxErrorKind::IdentifierExpected, token));
            }
            first = false;
            parameters.push(token.content().clone());
            assert(text_views(parameters@) =~= names.push(token.content@));
            pos += 1;
        } else if kind == TokenKind::Comma {
            if pos + 1 >= span.len() {
                return Err(SyntaxError::new(SyntaxErrorKind::IdentifierExpected, token));
            }
            let name = &span[pos + 1];
            if name.token_type().kind() != TokenKind::Identifier {
                return Err(SyntaxError::new(SyntaxErrorKind::IdentifierExpected, name));
            }
            parameters.push(name.content().clone());
            assert(text_views(parameters@) =~= names.push(name.content@));
            pos += 2;
        } else {
            return Err(SyntaxError::new(SyntaxErrorKind::CloseOrCommaExpected, token));
        }
    }
    Ok(parameters)
}

/// Reads the declaration of a function, whose keyword the cursor has just passed.
#[verifier::loop_isolation(false)]
fn pre_parse_function(queue: &mut TokenQueue) -> (r: Result<Function, SyntaxError>)
    requires
        old(queue).pointer <= old(queue).elements.len(),
    ensures
        final(queue).elements == old(queue).elements,
        r is Ok ==> old(queue).pointer <= final(queue).pointer <= old(queue).elements.len(),
        function_scanned_as(
            r,
            final(queue).pointer as int,
            scan_function(old(queue).elements@, old(queue).pointer as int, 1, blank_function()),
        ),
{
    let ghost tokens = queue.elements@;
    let ghost start = queue.pointer as int;
    let mut name = String::new();
    let mut definition = PartExpression::Empty;
    let mut parameters: Vec<String> = Vec::new();
    let mut cached = false;
    let mut lines_left: u128 = 1;
    assert(text_views(parameters@) =~= Seq::empty());
    while lines_left > 0 && queue.is_not_empty()
        invariant
            queue.elements == old(queue).elements,
            start <= queue.pointer <= tokens.len(),
            lines_left <= 1 + queue.pointer,
            scan_function(tokens, start, 1, blank_function()) == scan_function(
                tokens,
                queue.pointer as int,
                lines_left as int,
                FunctionView {
                    name: name@,
                    definition: ExpressionView::Empty,
                    parameters: text_views(parameters@),
                    pre_definition: definition@,
                    cached,
                },
            ),
        decreases tokens.len() - queue.pointer,
    {
        let next = queue.peek();
        match next.token_type().kind() {
            TokenKind::Pipe => {
                lines_left += 1;
            },
            TokenKind::NewLine => {
                lines_left -= 1;
            },
            TokenKind::Whitespace => {},
            TokenKind::Cache => {
                cached = true;
            },
            TokenKind::OpenParenthesis => {
                if name.as_str().is_empty() {
                    return Err(SyntaxError::new(SyntaxErrorKind::ExpectedIdentifier, &next));
                } else if !definition.is_empty() {
                    return Err(SyntaxError::new(SyntaxErrorKind::InvalidToken, &next));
                }
                let (span, lines) = capture_span(queue, lines_left, Some(TokenKind::Assign));
                lines_left = lines;
                parameters = match parse_parameters(&span, parameters) {
                    Ok(names) => names,
                    Err(e) => {
                        return Err(e);
                    },
                };
                if contains_kind(&span, TokenKind::Cache) {
                    cached = true;
                }
            },
            TokenKind::Assign => {
                if name.as_str().is_empty() {
                    return Err(SyntaxError::new(SyntaxErrorKind::ExpectedIdentifier, &next));
                } else if !definition.is_empty() {
                    return Err(SyntaxError::new(SyntaxErrorKind::InvalidToken, &next));
                }
                let (body, lines) = capture_span(queue, lines_left, None);
                lines_left = lines;
                definition = match parse_span(body) {
                    Ok(tree) => tree,
                    Err(e) => {
                        return Err(e);
                    },
                };
            },
            TokenKind::Identifier => {
                if !name.as_str().is_empty() {
                    return Err(SyntaxError::new(SyntaxErrorKind::InvalidToken, &next));
                }
                name = next.content().clone();
            },
            _ => {
                if !name.as_str().is_empty() {
                    return Err(SyntaxError::new(SyntaxErrorKind::ExpectedAssign, &next));
                }
                return Err(SyntaxError::new(SyntaxErrorKind::ExpectedIdentifier, &next));
            },
        }
    }
    Ok(Function { name, definition: Expression::Empty, parameters, pre_definition: definition, cached })
}

/// Reads an expression outside every declaration, which starts at the cursor.
fn pre_parse_loose_expression(queue: &mut TokenQueue) -> (r: Result<PartExpression, SyntaxError>)
    requires
        old(queue).pointer <= old(queue).elements.len(),
    ensures
        final(queue).elements == old(queue).elements,
        r is Ok ==> old(queue).pointer <= final(queue).pointer <= old(queue).elements.len(),
        tree_scanned_as(
            r,
            final(queue).pointer as int,
            scan_loose(old(queue).elements@, old(queue).pointer as int),
        ),
{
    let (actual_tokens, _) = capture_span(queue, 1, None);
    if actual_tokens.len() == 0 {
        return Ok(PartExpression::Comment);
    }
    parse_span(actual_tokens)
}

/// The function that stands in a program for the host's function `f`: it has
/// the host's mark as its body and parameters named by their places.
fn map_function(f: ExternalRuntimeFunction) -> (r: Function)
    ensures
        r@ == external_function(f@),
{
    let mut parameters: Vec<String> = Vec::new();
    let mut i: usize = 0;
    while i < f.parameters
        invariant
            i <= f.parameters,
            parameters.len() == i,
            forall|j: int| 0 <= j < i ==> (#[trigger] parameters@[j])@ == parameter_name(j as nat),
        decreases f.parameters - i,
    {
        let mut name = String::new();
        name.push('p');
        push_decimal(&mut name, i);
        assert(name@ =~= parameter_name(i as nat));
        parameters.push(name);
        i += 1;
    }
    assert(text_views(parameters@) =~= external_function(f@).parameters);
    Function {
        name: f.name,
        definition: Expression::External,
        parameters,
        pre_definition: PartExpression::Empty,
        cached: false,
    }
}

/// A variable that stands for the parameter `name` while a function's body is resolved.
fn fake_variable(name: String) -> (r: Variable)
    ensures
        r@ == parameter_variable(name@),
{
    let variable = Variable {
        name,
        definition: Expression::Empty,
        wherepart: Vec::new(),
        pre_definition: PartExpression::Empty,
        pre_wherepart: Vec::new(),
        constant: false,
    };
    assert(variable@.wherepart =~= Seq::empty());
    assert(variable@.pre_wherepart =~= Seq::empty());
    variable
}

/// Resolves the definition of `var` among `variables` and `functions`.
fn post_parse_variable(var: &mut Variable, variables: &Vec<Variable>, functions: &Vec<Function>) -> (r:
    Result<(), SyntaxError>)
    ensures
        match resolve_variable(old(var)@, variable_views(variables@), function_views(functions@)) {
            Ok(variable) => r is Ok && final(var)@ == variable,
            Err(e) => r is Err && r->Err_0 == e,
        },
{
    match actual_parse_expression(var.pre_definition.clone(), variables, functions) {
        Ok(definition) => {
            var.definition = definition;
            var.pre_definition = PartExpression::Empty;
            Ok(())
        },
        Err(e) => Err(e),
    }
}

/// Resolves the body of `func` among `variables`, its own parameters and
/// `functions`.
fn post_parse_function(func: &mut Function, variables: &Vec<Variable>, functions: &Vec<Function>) -> (r:
    Result<(), SyntaxError>)
    requires
        !(old(func)@.definition is External),
    ensures
        match resolve_function(old(func)@, variable_views(variables@), function_views(functions@)) {
            Ok(function) => r is Ok && final(func)@ == function,
            Err(e) => r is Err && r->Err_0 == e,
        },
{
    let mut vars = clone_variables(variables);
    let ghost names = text_views(func.parameters@);
    let ghost given = variable_views(variables@);
    let mut i: usize = 0;
    assert(variable_views(vars@) =~= given + names.take(0).map_values(
        |name: Seq<char>| parameter_variable(name),
    ));
    while i < func.parameters.len()
        invariant
            i <= func.parameters.len(),
            *func == *old(func),
            names == text_views(func.parameters@),
            variable_views(vars@) == given + names.take(i as int).map_values(
                |name: Seq<char>| parameter_variable(name),
            ),
        decreases func.parameters.len() - i,
    {
        let ghost before = variable_views(vars@);
        let parameter = fake_variable(func.parameters[i].clone());
        vars.push(parameter);
        i += 1;
        assert(variable_views(vars@) =~= before.push(parameter@));
        assert(names[i - 1] == func.parameters[i - 1]@);
        assert(names.take(i as int) =~= names.take(i - 1).push(names[i - 1]));
        assert(variable_views(vars@) =~= given + names.take(i as int).map_values(
            |name: Seq<char>| parameter_variable(name),
        ));
    }
    assert(names.take(i as int) =~= names);
    match actual_parse_expression(func.pre_definition.clone(), &vars, functions) {
        Ok(definition) => {
            func.definition = definition;
            func.pre_definition = PartExpression::Empty;
            Ok(())
        },
        Err(e) => Err(e),
    }
}

/// An error among the first `n` variables is the error of every longer run.
proof fn lemma_resolve_variables_error(
    list: Seq<VariableView>,
    n: int,
    m: int,
    variables: Seq<VariableView>,
    functions: Seq<FunctionView>,
)
    requires
        0 <= n <= m,
        resolve_variables(list, n, variables, functions) is Err,
    ensures
        resolve_variables(list, m, variables, functions) == resolve_variables(
            list,
            n,
            variables,
            functions,
        ),
    decreases m - n,
{
    if n < m {
        lemma_resolve_variables_error(list, n, m - 1, variables, functions);
    }
}

/// An error among the first `n` functions is the error of every longer run.
proof fn lemma_resolve_functions_error(
    list: Seq<FunctionView>,
    n: int,
    m: int,
    variables: Seq<VariableView>,
    functions: Seq<FunctionView>,
)
    requires
        0 <= n <= m,
        resolve_functions(list, n, variables, functions) is Err,
    ensures
        resolve_functions(list, m, variables, functions) == resolve_functions(
            list,
            n,
            variables,
            functions,
        ),
    decreases m - n,
{
    if n < m {
        lemma_resolve_functions_error(list, n, m - 1, variables, functions);
    }
}

/// An error among the first `n` expressions is the error of every longer run.
proof fn lemma_resolve_loose_error(
    list: Seq<PartView>,
    n: int,
    m: int,
    variables: Seq<VariableView>,
    functions: Seq<FunctionView>,
)
    requires
        0 <= n <= m,
        resolve_loose(list, n, variables, functions) is Err,
    ensures
        resolve_loose(list, m, variables, functions) == resolve_loose(list, n, variables, functions),
    decreases m - n,
{
    if n < m {
        lemma_resolve_loose_error(list, n, m - 1, variables, functions);
    }
}

/// Finds the declarations in the tokens of `queue` from the cursor on and adds
/// them to the three lists.
#[verifier::loop_isolation(false)]
fn pre_parse(
    queue: &mut TokenQueue,
    variables: &mut Vec<Variable>,
    functions: &mut Vec<Function>,
    loose: &mut Vec<PartExpression>,
) -> (r: Result<(), SyntaxError>)
    requires
        old(queue).pointer <= old(queue).elements.len(),
    ensures
        match scan_program(
            old(queue).elements@,
            old(queue).pointer as int,
            Declarations {
                variables: variable_views(old(variables)@),
                functions: function_views(old(functions)@),
                loose: part_views(old(loose)@),
            },
        ) {
            Ok(found) => r is Ok && found == (Declarations {
                variables: variable_views(final(variables)@),
                functions: function_views(final(functions)@),
                loose: part_views(final(loose)@),
            }),
            Err(e) => r is Err && r->Err_0 == e,
        },
{
    let ghost tokens = queue.elements@;
    let ghost start = queue.pointer as int;
    let ghost given = Declarations {
        variables: variable_views(variables@),
        functions: function_views(functions@),
        loose: part_views(loose@),
    };
    while queue.is_not_empty()
        invariant
            queue.elements == old(queue).elements,
            queue.pointer <= tokens.len(),
            scan_program(tokens, start, given) == scan_program(
                tokens,
                queue.pointer as int,
                Declarations {
                    variables: variable_views(variables@),
                    functions: function_views(functions@),
                    loose: part_views(loose@),
                },
            ),
        decreases tokens.len() - queue.pointer,
    {
        let ghost pos = queue.pointer as int;
        let ghost seen_variables = variable_views(variables@);
        let ghost seen_functions = function_views(functions@);
        let next = queue.peek();
        match next.token_type().kind() {
            TokenKind::Let => {
                match pre_parse_variable(queue, false) {
                    Ok(variable) => {
                        variables.push(variable);
                        assert(variable_views(variables@) =~= seen_variables.push(variable@));
                    },
                    Err(e) => {
                        return Err(e);
                    },
                }
            },
            TokenKind::Const => {
                match pre_parse_variable(queue, true) {
                    Ok(variable) => {
                        variables.push(variable);
                        assert(variable_views(variables@) =~= seen_variables.push(variable@));
                    },
                    Err(e) => {
                        return Err(e);
                    },
                }
            },
            TokenKind::Define => {
                match pre_parse_function(queue) {
                    Ok(function) => {
                        functions.push(function);
                        assert(function_views(functions@) =~= seen_functions.push(function@));
                    },
                    Err(e) => {
                        return Err(e);
                    },
                }
            },
            TokenKind::Whitespace | TokenKind::NewLine => {},
            _ => {
                queue.back();
                proof {
                    lemma_capture_bounds(tokens, pos, 1, None);
                }
                match pre_parse_loose_expression(queue) {
                    Ok(tree) => {
                        proof {
                            lemma_part_views_push(loose@, tree);
                        }
                        loose.push(tree);
                    },
                    Err(e) => {
                        return Err(e);
                    },
                }
            },
        }
    }
    Ok(())
}

/// Resolves the definitions of the variables, the bodies of the functions and
/// the expressions outside every declaration, all among `variables` and
/// `functions`.
#[verifier::loop_isolation(false)]
fn post_parse(variables: &Vec<Variable>, functions: &Vec<Function>, loose: &Vec<PartExpression>) -> (r:
    Result<AST, SyntaxError>)
    ensures
        match resolve_program(
            Declarations {
                variables: variable_views(variables@),
                functions: function_views(functions@),
                loose: part_views(loose@),
            },
        ) {
            Ok(ast) => r is Ok && r->Ok_0@ == ast,
            Err(e) => r is Err && r->Err_0 == e,
        },
{
    let ghost vars = variable_views(variables@);
    let ghost funs = function_views(functions@);
    let ghost trees = part_views(loose@);
    let mut resolved_variables: Vec<Variable> = Vec::new();
    let mut i: usize = 0;
    assert(variable_views(resolved_variables@) =~= Seq::empty());
    while i < variables.len()
        invariant
            i <= variables.len(),
            resolve_variables(vars, i as int, vars, funs) == Ok::<Seq<VariableView>, SyntaxError>(
                variable_views(resolved_variables@),
            ),
        decreases variables.len() - i,
    {
        let ghost before = variable_views(resolved_variables@);
        let mut variable = variables[i].clone();
        match post_parse_variable(&mut variable, variables, functions) {
            Ok(()) => {
                resolved_variables.push(variable);
                assert(variable_views(resolved_variables@) =~= before.push(variable@));
            },
            Err(e) => {
                proof {
                    lemma_resolve_variables_error(vars, i + 1, vars.len() as int, vars, funs);
                }
                return Err(e);
            },
        }
        i += 1;
    }
    let mut resolved_functions: Vec<Function> = Vec::new();
    let mut j: usize = 0;
    assert(function_views(resolved_functions@) =~= Seq::empty());
    while j < functions.len()
        invariant
            j <= functions.len(),
            resolve_functions(funs, j as int, vars, funs) == Ok::<Seq<FunctionView>, SyntaxError>(
                function_views(resolved_functions@),
            ),
        decreases functions.len() - j,
    {
        let ghost before = function_views(resolved_functions@);
        let mut function = functions[j].clone();
        if !function.definition.is_external() {
            match post_parse_function(&mut function, variables, functions) {
                Ok(()) => {},
                Err(e) => {
                    proof {
                        lemma_resolve_functions_error(funs, j + 1, funs.len() as int, vars, funs);
                    }
                    return Err(e);
                },
            }
        }
        resolved_functions.push(function);
        assert(function_views(resolved_functions@) =~= before.push(function@));
        j += 1;
    }
    let mut loose_expressions: Vec<Expression> = Vec::new();
    let mut k: usize = 0;
    assert(expression_views(loose_expressions@) =~= Seq::empty());
    while k < loose.len()
        invariant
            k <= loose.len(),
            resolve_loose(trees, k as int, vars, funs) == Ok::<Seq<ExpressionView>, SyntaxError>(
                expression_views(loose_expressions@),
            ),
        decreases loose.len() - k,
    {
        if !loose[k].is_comment() {
            match actual_parse_expression(loose[k].clone(), variables, functions) {
                Ok(expression) => {
                    proof {
                        lemma_expression_views_push(loose_expressions@, expression);
                    }
                    loose_expressions.push(expression);
                },
                Err(e) => {
                    proof {
                        lemma_resolve_loose_error(trees, k + 1, trees.len() as int, vars, funs);
                    }
                    return Err(e);
                },
            }
        }
        k += 1;
    }
    Ok(AST { functions: resolved_functions, variables: resolved_variables, loose_expressions })
}

/// Parses a program: finds its declarations, then resolves every name among
/// all of them and the host's functions `external_functions`.
pub fn parse(tokens: Vec<LexedToken>, external_functions: Vec<ExternalRuntimeFunction>) -> (r: Result<
    AST,
    SyntaxError,
>)
    ensures
        match parse_program(tokens@, external_views(external_functions@)) {
            Ok(ast) => r is Ok && r->Ok_0@ == ast,
            Err(e) => r is Err && r->Err_0 == e,
        },
{
    let mut queue = token_queue(tokens);
    queue.remove_all(TokenKind::Whitespace);
    let mut variables: Vec<Variable> = Vec::new();
    let mut functions: Vec<Function> = Vec::new();
    let mut loose: Vec<PartExpression> = Vec::new();
    let mut i: usize = 0;
    while i < external_functions.len()
        invariant
            i <= external_functions.len(),
            functions.len() == i,
            forall|j: int|
                0 <= j < i ==> (#[trigger] functions@[j])@ == external_function(
                    external_functions@[j]@,
                ),
        decreases external_functions.len() - i,
    {
        functions.push(map_function(external_functions[i].clone()));
        i += 1;
    }
    assert(function_views(functions@) =~= self::external_functions(
        external_views(external_functions@),
    ));
    assert(variable_views(variables@) =~= Seq::empty());
    assert(part_views(loose@) =~= Seq::empty());
    match pre_parse(&mut queue, &mut variables, &mut functions, &mut loose) {
        Ok(()) => post_parse(&variables, &functions, &loose),
        Err(e) => Err(e),
    }
}

} // verus!
