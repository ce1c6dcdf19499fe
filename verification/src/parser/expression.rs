//! The operator-precedence parser of expressions.
//!
//! [`parse_part`] and the functions beside it say, for a sequence of tokens and
//! a position in it, which tree the parser builds and where it stops;
//! [`parse_expression_part`] computes exactly that.

use crate::ast::expression_views;
use crate::ast::function_views;
use crate::ast::lemma_expression_views_push;
use crate::ast::variable_views;
use crate::ast::Expression;
use crate::ast::ExpressionView;
use crate::ast::Function;
use crate::ast::FunctionView;
use crate::ast::MathType;
use crate::ast::Variable;
use crate::ast::VariableView;
use crate::error::SyntaxError;
use crate::error::SyntaxErrorKind;
use crate::lexer::LexedToken;
use crate::lexer::TokenKind;
use crate::number::is_literal;
use crate::number::literal_value;
use crate::number::Number;
use crate::parser::token_queue;
use crate::parser::TokenQueue;
use crate::text::chars_of;
use crate::text::string_of;
use crate::text::text_equals;
use std::collections::HashMap;
use vstd::prelude::*;

verus! {

/// How strongly an operator binds its operands.
#[derive(Debug, Clone, Copy, PartialEq, Eq, Structural)]
pub enum Precedence {
    Lowest,
    Conditional,
    Sum,
    Product,
    FunctionInvocation,
    Prefix,
    Assignment,
}

impl Precedence {
    /// The place of this level among the levels, from zero.
    pub open spec fn rank(self) -> nat {
        match self {
            Precedence::Lowest => 0,
            Precedence::Conditional => 1,
            Precedence::Sum => 2,
            Precedence::Product => 3,
            Precedence::FunctionInvocation => 4,
            Precedence::Prefix => 5,
            Precedence::Assignment => 6,
        }
    }

    /// The level below this one; the lowest level stays.
    pub open spec fn below(self) -> Precedence {
        match self {
            Precedence::Lowest => Precedence::Lowest,
            Precedence::Conditional => Precedence::Lowest,
            Precedence::Sum => Precedence::Conditional,
            Precedence::Product => Precedence::Sum,
            Precedence::FunctionInvocation => Precedence::Product,
            Precedence::Prefix => Precedence::FunctionInvocation,
            Precedence::Assignment => Precedence::Prefix,
        }
    }

    /// The levels that an operand can be parsed at, each under its rank.
    pub fn entries() -> (r: HashMap<u8, Precedence>)
        ensures
            forall|k: u8| r@.contains_key(k) <==> k < 6,
            forall|k: u8| k < 6 ==> (#[trigger] r@[k]).rank() == k,
    {
        broadcast use vstd::std_specs::hash::group_hash_axioms;

        let mut map = HashMap::<u8, Precedence>::new();
        map.insert(Precedence::Lowest.order(), Precedence::Lowest);
        map.insert(Precedence::Conditional.order(), Precedence::Conditional);
        map.insert(Precedence::Sum.order(), Precedence::Sum);
        map.insert(Precedence::Product.order(), Precedence::Product);
        map.insert(Precedence::FunctionInvocation.order(), Precedence::FunctionInvocation);
        map.insert(Precedence::Prefix.order(), Precedence::Prefix);
        map
    }

    /// The place of this level among the levels, from zero.
    pub fn order(&self) -> (r: u8)
        ensures
            r == self.rank(),
    {
        match self {
            Precedence::Lowest => 0,
            Precedence::Conditional => 1,
            Precedence::Sum => 2,
            Precedence::Product => 3,
            Precedence::FunctionInvocation => 4,
            Precedence::Prefix => 5,
            Precedence::Assignment => 6,
        }
    }

    /// The level below this one; the lowest level stays.
    pub fn one_less(&self) -> (r: Precedence)
        ensures
            r == self.below(),
            r.rank() == if self.rank() == 0 {
                0
            } else {
                self.rank() - 1
            },
    {
        let order_less: u8 = if self.order() == 0 {
            0
        } else {
            self.order() - 1
        };
        broadcast use vstd::std_specs::hash::group_hash_axioms;

        let entries = Precedence::entries();
        match entries.get(&order_less) {
            Some(entry) => *entry,
            None => vstd::pervasive::unreached(),
        }
    }
}

/// The level at which a token of kind `kind` joins two expressions; the lowest
/// level for a token that joins none.
pub open spec fn infix_level(kind: TokenKind) -> Precedence {
    match kind {
        TokenKind::Plus | TokenKind::Minus => Precedence::Sum,
        TokenKind::Multiply | TokenKind::Divide | TokenKind::Pow => Precedence::Product,
        TokenKind::Equals
        | TokenKind::NotEquals
        | TokenKind::BiggerOrEquals
        | TokenKind::Bigger
        | TokenKind::SmallerOrEquals => Precedence::Conditional,
        TokenKind::Assign => Precedence::Assignment,
        TokenKind::OpenParenthesis => Precedence::FunctionInvocation,
        _ => Precedence::Lowest,
    }
}

/// The level at which a token of kind `kind` joins two expressions.
pub fn infix_precedence(kind: TokenKind) -> (r: Precedence)
    ensures
        r == infix_level(kind),
{
    match kind {
        TokenKind::Plus | TokenKind::Minus => Precedence::Sum,
        TokenKind::Multiply | TokenKind::Divide | TokenKind::Pow => Precedence::Product,
        TokenKind::Equals
        | TokenKind::NotEquals
        | TokenKind::BiggerOrEquals
        | TokenKind::Bigger
        | TokenKind::SmallerOrEquals => Precedence::Conditional,
        TokenKind::Assign => Precedence::Assignment,
        TokenKind::OpenParenthesis => Precedence::FunctionInvocation,
        _ => Precedence::Lowest,
    }
}

/// The level above which the operators must bind that the right operand of
/// an operator of kind `kind` takes in, the operator itself binding at
/// `level`: its own level, so that operators of one level group from the
/// left; for the assignment the level below, so that assignments group from
/// the right.
pub open spec fn operand_level(kind: TokenKind, level: Precedence) -> Precedence {
    if kind == TokenKind::Assign {
        level.below()
    } else {
        level
    }
}

/// The level above which the operators must bind that the right operand of
/// an operator of kind `kind` takes in, the operator itself binding at
/// `level`.
pub fn right_operand_level(kind: TokenKind, level: Precedence) -> (r: Precedence)
    ensures
        r == operand_level(kind, level),
{
    match kind {
        TokenKind::Assign => level.one_less(),
        _ => level,
    }
}

/// A parsed expression whose names are not resolved yet. Each node keeps the
/// token that it was made for.
#[derive(Debug)]
#[allow(inconsistent_fields)]
pub enum PartExpression {
    /// The mark of an expression that is not there.
    Empty,
    /// A line without tokens.
    Comment,
    Number { val: Number, token: LexedToken },
    Identifier { val: String, token: LexedToken },
    PrefixOperator { prefix: String, expression: Box<PartExpression>, token: LexedToken },
    InfixOperator {
        operator: String,
        left: Box<PartExpression>,
        right: Box<PartExpression>,
        token: LexedToken,
    },
    FunctionInvocation { val: Box<PartExpression>, arguments: Vec<PartExpression>, token: LexedToken },
}

/// What a [`PartExpression`] denotes: the same tree over integers and texts.
#[allow(inconsistent_fields)]
pub ghost enum PartView {
    Empty,
    Comment,
    Number { val: int, token: LexedToken },
    Identifier { val: Seq<char>, token: LexedToken },
    PrefixOperator { prefix: Seq<char>, expression: Box<PartView>, token: LexedToken },
    InfixOperator { operator: Seq<char>, left: Box<PartView>, right: Box<PartView>, token: LexedToken },
    FunctionInvocation { val: Box<PartView>, arguments: Seq<PartView>, token: LexedToken },
}

/// The views of the trees `list`, in order.
pub open spec fn part_views(list: Seq<PartExpression>) -> Seq<PartView>
    decreases list,
{
    Seq::new(
        list.len(),
        |i: int|
            if 0 <= i < list.len() {
                list[i].model()
            } else {
                PartView::Empty
            },
    )
}

impl PartExpression {
    /// The tree that this expression denotes.
    pub open spec fn model(&self) -> PartView
        decreases self,
    {
        match self {
            PartExpression::Empty => PartView::Empty,
            PartExpression::Comment => PartView::Comment,
            PartExpression::Number { val, token } => PartView::Number { val: val@, token: *token },
            PartExpression::Identifier { val, token } => PartView::Identifier {
                val: val@,
                token: *token,
            },
            PartExpression::PrefixOperator { prefix, expression, token } => PartView::PrefixOperator {
                prefix: prefix@,
                expression: Box::new(expression.model()),
                token: *token,
            },
            PartExpression::InfixOperator { operator, left, right, token } => PartView::InfixOperator {
                operator: operator@,
                left: Box::new(left.model()),
                right: Box::new(right.model()),
                token: *token,
            },
            PartExpression::FunctionInvocation { val, arguments, token } => PartView::FunctionInvocation {
                val: Box::new(val.model()),
                arguments: part_views(arguments@),
                token: *token,
            },
        }
    }

    /// Whether this is the mark of a line without tokens.
    pub fn is_comment(&self) -> (r: bool)
        ensures
            r == (self@ is Comment),
    {
        match self {
            PartExpression::Comment => true,
            _ => false,
        }
    }

    /// Whether this is the mark of an expression that is not there.
    pub fn is_empty(&self) -> (r: bool)
        ensures
            r == (self@ is Empty),
    {
        match self {
            PartExpression::Empty => true,
            _ => false,
        }
    }
}

impl View for PartExpression {
    type V = PartView;

    open spec fn view(&self) -> PartView {
        self.model()
    }
}

impl Clone for PartExpression {
    #[verifier::loop_isolation(false)]
    fn clone(&self) -> (r: Self)
        ensures
            r@ == self@,
        decreases self,
    {
        match self {
            PartExpression::Number { val, token } => PartExpression::Number {
                val: val.clone(),
                token: token.clone(),
            },
            PartExpression::Identifier { val, token } => PartExpression::Identifier {
                val: val.clone(),
                token: token.clone(),
            },
            PartExpression::PrefixOperator { prefix, expression, token } => PartExpression::PrefixOperator {
                prefix: prefix.clone(),
                expression: Box::new((**expression).clone()),
                token: token.clone(),
            },
            PartExpression::InfixOperator { operator, left, right, token } => PartExpression::InfixOperator {
                operator: operator.clone(),
                left: Box::new((**left).clone()),
                right: Box::new((**right).clone()),
                token: token.clone(),
            },
            PartExpression::FunctionInvocation { val, arguments, token } => {
                let mut copies: Vec<PartExpression> = Vec::new();
                let mut i: usize = 0;
                while i < arguments.len()
                    invariant
                        i <= arguments.len(),
                        copies.len() == i,
                        forall|j: int| 0 <= j < i ==> copies@[j]@ == arguments@[j]@,
                    decreases arguments.len() - i,
                {
                    proof {
                        vstd::std_specs::vec::axiom_vec_index_decreases(*arguments, i as int);
                    }
                    copies.push(arguments[i].clone());
                    i += 1;
                }
                assert(part_views(copies@) =~= part_views(arguments@));
                PartExpression::FunctionInvocation {
                    val: Box::new((**val).clone()),
                    arguments: copies,
                    token: token.clone(),
                }
            },
            PartExpression::Empty => PartExpression::Empty,
            PartExpression::Comment => PartExpression::Comment,
        }
    }
}

/// The views of a list that grew by one tree are the views of the list and
/// the view of the tree.
pub proof fn lemma_part_views_push(list: Seq<PartExpression>, tree: PartExpression)
    ensures
        part_views(list.push(tree)) == part_views(list).push(tree@),
{
    assert(part_views(list.push(tree)) =~= part_views(list).push(tree@));
}

/// Where the group ends that holds the token at `from`: the index of the first
/// closing parenthesis at or after `from` that closes more groups than were
/// opened since, `depth` groups being open at `from`.
pub open spec fn closing_index(tokens: Seq<LexedToken>, from: int, depth: int) -> Option<int>
    decreases tokens.len() - from,
{
    if from < 0 || from >= tokens.len() {
        None
    } else {
        let kind = tokens[from].kind();
        let open = if kind == TokenKind::OpenParenthesis {
            depth + 1
        } else if kind == TokenKind::CloseParenthesis {
            depth - 1
        } else {
            depth
        };
        if open <= 0 {
            Some(from)
        } else {
            closing_index(tokens, from + 1, open)
        }
    }
}

/// The tree that the tokens from `pos` on denote, read while operators bind
/// more strongly than `precedence`, and the position after them.
pub open spec fn parse_part(tokens: Seq<LexedToken>, pos: int, precedence: Precedence) -> Result<
    (PartView, int),
    SyntaxError,
>
    decreases tokens.len() - pos, 2int,
{
    if pos < 0 || pos >= tokens.len() {
        Err(SyntaxError::at_end(SyntaxErrorKind::NothingToParse))
    } else {
        match parse_prefix(tokens, pos + 1, tokens[pos]) {
            Err(e) => Err(e),
            Ok((left, next)) => if pos < next <= tokens.len() {
                parse_infixes(tokens, next, left, precedence)
            } else {
                Ok((left, next))
            },
        }
    }
}

/// The operand that starts with the token `token`, after which the tokens
/// from `pos` on follow, and the position after the operand.
pub open spec fn parse_prefix(tokens: Seq<LexedToken>, pos: int, token: LexedToken) -> Result<
    (PartView, int),
    SyntaxError,
>
    decreases tokens.len() - pos, 3int,
{
    if pos < 0 || pos > tokens.len() {
        Err(SyntaxError::at_end(SyntaxErrorKind::NothingToParse))
    } else {
        match token.kind() {
            TokenKind::Minus => match parse_part(tokens, pos, Precedence::Prefix) {
                Err(e) => Err(e),
                Ok((operand, next)) => Ok(
                    (
                        PartView::PrefixOperator {
                            prefix: token.content@,
                            expression: Box::new(operand),
                            token,
                        },
                        next,
                    ),
                ),
            },
            TokenKind::Number => if is_literal(token.content@) {
                Ok((PartView::Number { val: literal_value(token.content@) as int, token }, pos))
            } else {
                Err(SyntaxError::at(SyntaxErrorKind::InvalidNumber, token))
            },
            TokenKind::Identifier => Ok((PartView::Identifier { val: token.content@, token }, pos)),
            TokenKind::OpenParenthesis => match closing_index(tokens, pos, 1) {
                None => Err(
                    SyntaxError::at_offset(SyntaxErrorKind::MissingClosingParenthesis, token, 1),
                ),
                Some(close) => if pos < close < tokens.len() {
                    match parse_part(tokens.subrange(pos, close), 0, Precedence::Lowest) {
                        Err(e) => Err(e),
                        Ok((tree, _)) => Ok((tree, close + 1)),
                    }
                } else {
                    Err(SyntaxError::at(SyntaxErrorKind::EmptyBlock, tokens[close]))
                },
            },
            _ => Err(SyntaxError::at(SyntaxErrorKind::UnknownPrefix, token)),
        }
    }
}

/// The tree that `left` grows into by the operators from `pos` on that bind
/// more strongly than `precedence`, and the position after them.
pub open spec fn parse_infixes(
    tokens: Seq<LexedToken>,
    pos: int,
    left: PartView,
    precedence: Precedence,
) -> Result<(PartView, int), SyntaxError>
    decreases tokens.len() - pos, 0int,
{
    if pos < 0 || pos >= tokens.len() {
        Ok((left, pos))
    } else {
        let token = tokens[pos];
        let level = infix_level(token.kind());
        if precedence.rank() >= level.rank() {
            Ok((left, pos))
        } else {
            match parse_infix(tokens, pos + 1, left, token, level) {
                Err(e) => Err(e),
                Ok((joined, next)) => if pos < next <= tokens.len() {
                    parse_infixes(tokens, next, joined, precedence)
                } else {
                    Ok((joined, next))
                },
            }
        }
    }
}

/// The tree that the operator `operator` makes of `left` and of what follows
/// it from `pos` on, and the position after that. The right operand takes in
/// the operators that bind above [`operand_level`].
pub open spec fn parse_infix(
    tokens: Seq<LexedToken>,
    pos: int,
    left: PartView,
    operator: LexedToken,
    level: Precedence,
) -> Result<(PartView, int), SyntaxError>
    decreases tokens.len() - pos, 4int,
{
    if infix_level(operator.kind()) == Precedence::Lowest {
        Err(SyntaxError::at(SyntaxErrorKind::UnknownInfix, operator))
    } else if operator.kind() == TokenKind::OpenParenthesis {
        if left is Identifier {
            match parse_arguments(tokens, pos, Seq::empty(), true) {
                Err(e) => Err(e),
                Ok((arguments, next)) => Ok(
                    (
                        PartView::FunctionInvocation {
                            val: Box::new(left),
                            arguments,
                            token: operator,
                        },
                        next,
                    ),
                ),
            }
        } else {
            Err(SyntaxError::at(SyntaxErrorKind::IdentifierExpected, operator))
        }
    } else {
        match parse_part(tokens, pos, operand_level(operator.kind(), level)) {
            Err(e) => Err(e),
            Ok((right, next)) => Ok(
                (
                    PartView::InfixOperator {
                        operator: operator.content@,
                        left: Box::new(left),
                        right: Box::new(right),
                        token: operator,
                    },
                    next,
                ),
            ),
        }
    }
}

/// The arguments of a call that follow `arguments` from `pos` on, and the
/// position after the call. `first` says that no argument was read yet. A call
/// that the tokens end in has the arguments read so far.
pub open spec fn parse_arguments(
    tokens: Seq<LexedToken>,
    pos: int,
    arguments: Seq<PartView>,
    first: bool,
) -> Result<(Seq<PartView>, int), SyntaxError>
    decreases tokens.len() - pos, 3int,
{
    if pos < 0 || pos >= tokens.len() {
        Ok((arguments, pos))
    } else {
        let token = tokens[pos];
        if token.kind() == TokenKind::CloseParenthesis {
            Ok((arguments, pos + 1))
        } else if first || token.kind() == TokenKind::Comma {
            let from = if first {
                pos
            } else {
                pos + 1
            };
            match parse_part(tokens, from, Precedence::Lowest) {
                Err(e) => Err(e),
                Ok((argument, next)) => if pos < next <= tokens.len() {
                    parse_arguments(tokens, next, arguments.push(argument), false)
                } else {
                    Ok((arguments.push(argument), next))
                },
            }
        } else {
            Err(SyntaxError::at(SyntaxErrorKind::CloseOrCommaExpected, token))
        }
    }
}

/// Whether `r`, with the cursor of a queue over `tokens` left at `pointer`, is
/// what `expected` says.
pub open spec fn parsed_as(
    r: Result<PartExpression, SyntaxError>,
    pointer: int,
    expected: Result<(PartView, int), SyntaxError>,
    from: int,
    tokens: Seq<LexedToken>,
) -> bool {
    match expected {
        Ok((tree, next)) => r is Ok && r->Ok_0@ == tree && pointer == next && from < next
            <= tokens.len(),
        Err(e) => r is Err && r->Err_0 == e,
    }
}

/// Parses the expression at the cursor, as far as its operators bind more
/// strongly than `precedence`, and leaves the cursor after it.
pub fn parse_expression_part(queue: &mut TokenQueue, precedence: Precedence) -> (r: Result<
    PartExpression,
    SyntaxError,
>)
    ensures
        final(queue).elements == old(queue).elements,
        parsed_as(
            r,
            final(queue).pointer as int,
            parse_part(old(queue).elements@, old(queue).pointer as int, precedence),
            old(queue).pointer as int,
            old(queue).elements@,
        ),
    decreases old(queue).elements.len() - old(queue).pointer, 2int,
{
    if queue.is_empty() {
        return Err(SyntaxError::without_token(SyntaxErrorKind::NothingToParse));
    }
    let ghost tokens = queue.elements@;
    let ghost start = queue.pointer as int;
    let first = queue.peek();
    let mut left = match prefix_parser(queue, first) {
        Ok(tree) => tree,
        Err(e) => {
            return Err(e);
        },
    };
    let ghost after_prefix = queue.pointer as int;
    let ghost operand = left@;
    loop
        invariant
            queue.elements == old(queue).elements,
            tokens == old(queue).elements@,
            start == old(queue).pointer,
            start < after_prefix <= queue.pointer <= tokens.len(),
            parse_part(tokens, start, precedence) == parse_infixes(
                tokens,
                queue.pointer as int,
                left@,
                precedence,
            ),
        decreases tokens.len() - queue.pointer,
    {
        if queue.is_empty() {
            return Ok(left);
        }
        let next = queue.get().clone();
        let level = infix_precedence(next.token_type().kind());
        if precedence.order() >= level.order() {
            return Ok(left);
        }
        queue.remove();
        left = match infix_parser(queue, left, next, level) {
            Ok(tree) => tree,
            Err(e) => {
                return Err(e);
            },
        };
    }
}

/// Parses the operand that starts with `token`, which the cursor has just passed.
pub fn prefix_parser(queue: &mut TokenQueue, token: LexedToken) -> (r: Result<
    PartExpression,
    SyntaxError,
>)
    requires
        old(queue).pointer <= old(queue).elements.len(),
    ensures
        final(queue).elements == old(queue).elements,
        parsed_as(
            r,
            final(queue).pointer as int,
            parse_prefix(old(queue).elements@, old(queue).pointer as int, token),
            old(queue).pointer - 1,
            old(queue).elements@,
        ),
    decreases old(queue).elements.len() - old(queue).pointer, 3int,
{
    match token.token_type().kind() {
        TokenKind::Minus => {
            match parse_expression_part(queue, Precedence::Prefix) {
                Ok(operand) => Ok(
                    PartExpression::PrefixOperator {
                        prefix: token.content().clone(),
                        expression: Box::new(operand),
                        token,
                    },
                ),
                Err(e) => Err(e),
            }
        },
        TokenKind::Number => {
            match Number::parse(token.content().as_str()) {
                Some(val) => Ok(PartExpression::Number { val, token }),
                None => Err(SyntaxError::new(SyntaxErrorKind::InvalidNumber, &token)),
            }
        },
        TokenKind::Identifier => Ok(
            PartExpression::Identifier { val: token.content().clone(), token },
        ),
        TokenKind::OpenParenthesis => parse_group(queue, token),
        _ => Err(SyntaxError::new(SyntaxErrorKind::UnknownPrefix, &token)),
    }
}

/// Parses the group in parentheses that `open` starts, which the cursor has
/// just passed: the tokens up to the parenthesis that closes it form an
/// expression of their own.
#[verifier::loop_isolation(false)]
fn parse_group(queue: &mut TokenQueue, open: LexedToken) -> (r: Result<PartExpression, SyntaxError>)
    requires
        old(queue).pointer <= old(queue).elements.len(),
        open.kind() == TokenKind::OpenParenthesis,
    ensures
        final(queue).elements == old(queue).elements,
        parsed_as(
            r,
            final(queue).pointer as int,
            parse_prefix(old(queue).elements@, old(queue).pointer as int, open),
            old(queue).pointer - 1,
            old(queue).elements@,
        ),
    decreases old(queue).elements.len() - old(queue).pointer, 2int,
{
    let ghost tokens = queue.elements@;
    let ghost start = queue.pointer as int;
    let mut captured: Vec<LexedToken> = Vec::new();
    let mut depth: u128 = 1;
    assert(captured@ =~= tokens.subrange(start, start));
    while queue.is_not_empty()
        invariant
            queue.elements == old(queue).elements,
            tokens == old(queue).elements@,
            start == old(queue).pointer,
            start <= queue.pointer <= tokens.len(),
            1 <= depth <= 1 + queue.pointer - start,
            captured@ == tokens.subrange(start, queue.pointer as int),
            closing_index(tokens, start, 1) == closing_index(
                tokens,
                queue.pointer as int,
                depth as int,
            ),
        decreases tokens.len() - queue.pointer,
    {
        let next = queue.peek();
        let kind = next.token_type().kind();
        if kind == TokenKind::OpenParenthesis {
            depth += 1;
        } else if kind == TokenKind::CloseParenthesis {
            depth -= 1;
        }
        if depth == 0 {
            let ghost close = queue.pointer - 1;
            assert(closing_index(tokens, start, 1) == Some(close));
            if captured.len() == 0 {
                return Err(SyntaxError::new(SyntaxErrorKind::EmptyBlock, &next));
            }
            let mut inner = token_queue(captured);
            return match parse_expression_part(&mut inner, Precedence::Lowest) {
                Ok(tree) => Ok(tree),
                Err(e) => Err(e),
            };
        }
        captured.push(next);
        assert(captured@ =~= tokens.subrange(start, queue.pointer as int));
    }
    Err(SyntaxError::with_offset(SyntaxErrorKind::MissingClosingParenthesis, &open, 1))
}

/// Joins `left` with what follows the operator `token`, which the cursor has
/// just passed.
pub fn infix_parser(
    queue: &mut TokenQueue,
    left: PartExpression,
    token: LexedToken,
    precedence: Precedence,
) -> (r: Result<PartExpression, SyntaxError>)
    requires
        old(queue).pointer <= old(queue).elements.len(),
    ensures
        final(queue).elements == old(queue).elements,
        parsed_as(
            r,
            final(queue).pointer as int,
            parse_infix(
                old(queue).elements@,
                old(queue).pointer as int,
                left@,
                token,
                precedence,
            ),
            old(queue).pointer - 1,
            old(queue).elements@,
        ),
    decreases old(queue).elements.len() - old(queue).pointer, 4int,
{
    let kind = token.token_type().kind();
    match infix_precedence(kind) {
        Precedence::Lowest => Err(SyntaxError::new(SyntaxErrorKind::UnknownInfix, &token)),
        Precedence::FunctionInvocation => parse_call(queue, left, token),
        _ => default_parse_infix(queue, left, token, precedence),
    }
}

/// Joins `left` and the expression at the cursor under the operator `token`,
/// which binds at `precedence`. The right operand takes in the operators
/// that bind more strongly than the operator itself, so operators of one
/// level group from the left; the right operand of an assignment takes in a
/// further assignment, so assignments group from the right.
pub fn default_parse_infix(
    queue: &mut TokenQueue,
    left: PartExpression,
    token: LexedToken,
    precedence: Precedence,
) -> (r: Result<PartExpression, SyntaxError>)
    requires
        old(queue).pointer <= old(queue).elements.len(),
    ensures
        final(queue).elements == old(queue).elements,
        parsed_as(
            r,
            final(queue).pointer as int,
            match parse_part(
                old(queue).elements@,
                old(queue).pointer as int,
                operand_level(token.kind(), precedence),
            ) {
                Err(e) => Err(e),
                Ok((right, next)) => Ok(
                    (
                        PartView::InfixOperator {
                            operator: token.content@,
                            left: Box::new(left@),
                            right: Box::new(right),
                            token,
                        },
                        next,
                    ),
                ),
            },
            old(queue).pointer - 1,
            old(queue).elements@,
        ),
    decreases old(queue).elements.len() - old(queue).pointer, 3int,
{
    let level = right_operand_level(token.token_type().kind(), precedence);
    match parse_expression_part(queue, level) {
        Ok(right) => Ok(
            PartExpression::InfixOperator {
                operator: token.content().clone(),
                left: Box::new(left),
                right: Box::new(right),
                token,
            },
        ),
        Err(e) => Err(e),
    }
}

/// Parses the arguments of a call of `left`, whose opening parenthesis `token`
/// the cursor has just passed.
#[verifier::loop_isolation(false)]
fn parse_call(queue: &mut TokenQueue, left: PartExpression, token: LexedToken) -> (r: Result<
    PartExpression,
    SyntaxError,
>)
    requires
        old(queue).pointer <= old(queue).elements.len(),
        token.kind() == TokenKind::OpenParenthesis,
    ensures
        final(queue).elements == old(queue).elements,
        parsed_as(
            r,
            final(queue).pointer as int,
            parse_infix(
                old(queue).elements@,
                old(queue).pointer as int,
                left@,
                token,
                Precedence::FunctionInvocation,
            ),
            old(queue).pointer - 1,
            old(queue).elements@,
        ),
    decreases old(queue).elements.len() - old(queue).pointer, 3int,
{
    match left {
        PartExpression::Identifier { .. } => {},
        _ => {
            return Err(SyntaxError::new(SyntaxErrorKind::IdentifierExpected, &token));
        },
    }
    let ghost tokens = queue.elements@;
    let ghost start = queue.pointer as int;
    let mut arguments: Vec<PartExpression> = Vec::new();
    let mut first = true;
    assert(part_views(arguments@) =~= Seq::empty());
    while queue.is_not_empty()
        invariant
            queue.elements == old(queue).elements,
            tokens == old(queue).elements@,
            start == old(queue).pointer,
            start <= queue.pointer <= tokens.len(),
            parse_arguments(tokens, start, Seq::empty(), true) == parse_arguments(
                tokens,
                queue.pointer as int,
                part_views(arguments@),
                first,
            ),
        decreases tokens.len() - queue.pointer,
    {
        let next = queue.peek();
        let kind = next.token_type().kind();
        if kind == TokenKind::CloseParenthesis {
            return Ok(PartExpression::FunctionInvocation { val: Box::new(left), arguments, token });
        }
        if first {
            first = false;
            queue.back();
        } else if kind != TokenKind::Comma {
            return Err(SyntaxError::new(SyntaxErrorKind::CloseOrCommaExpected, &next));
        }
        match parse_expression_part(queue, Precedence::Lowest) {
            Ok(argument) => {
                proof {
                    lemma_part_views_push(arguments@, argument);
                }
                arguments.push(argument);
            },
            Err(e) => {
                return Err(e);
            },
        }
    }
    Ok(PartExpression::FunctionInvocation { val: Box::new(left), arguments, token })
}

/// Whether `i` is the first place in `variables` of a variable named `name`.
pub open spec fn is_first_named(variables: Seq<VariableView>, name: Seq<char>, i: int) -> bool {
    &&& 0 <= i < variables.len()
    &&& variables[i].name == name
    &&& forall|j: int| 0 <= j < i ==> (#[trigger] variables[j]).name != name
}

/// Whether a variable named `name` is among `variables`.
pub open spec fn declares(variables: Seq<VariableView>, name: Seq<char>) -> bool {
    exists|i: int| 0 <= i < variables.len() && (#[trigger] variables[i]).name == name
}

/// Whether the first variable named `name` among `variables` is a constant.
pub open spec fn declares_constant(variables: Seq<VariableView>, name: Seq<char>) -> bool {
    exists|i: int| is_first_named(variables, name, i) && variables[i].constant
}

/// Whether a function named `name` with `arity` parameters is among `functions`.
pub open spec fn has_function(functions: Seq<FunctionView>, name: Seq<char>, arity: nat) -> bool {
    exists|i: int|
        0 <= i < functions.len() && (#[trigger] functions[i]).name == name
            && functions[i].parameters.len() == arity
}

/// Whether `name` carries the mark of a variable passed by reference: a
/// trailing asterisk.
pub open spec fn is_reference_name(name: Seq<char>) -> bool {
    name.len() > 0 && name.last() == '*'
}

/// The negation of `operand`, written as the operand less twice the operand.
pub open spec fn negation(operand: ExpressionView) -> ExpressionView {
    ExpressionView::Math {
        var1: Box::new(operand),
        var2: Box::new(
            ExpressionView::Math {
                var1: Box::new(operand),
                var2: Box::new(ExpressionView::NumberValue { value: 2 }),
                math: MathType::Multiply,
            },
        ),
        math: MathType::Subtract,
    }
}

/// The expression that `tree` resolves to among the variables `variables` and
/// the functions `functions`, or the first error found in it.
pub open spec fn resolve(
    tree: PartView,
    variables: Seq<VariableView>,
    functions: Seq<FunctionView>,
) -> Result<ExpressionView, SyntaxError>
    decreases tree,
{
    match tree {
        PartView::Number { val, token } => Ok(ExpressionView::NumberValue { value: val }),
        PartView::Identifier { val, token } => if declares(variables, val) {
            Ok(ExpressionView::VariableAccess { variable: val })
        } else if is_reference_name(val) && declares(variables, val.drop_last()) {
            Ok(ExpressionView::Pointer { to: val.drop_last() })
        } else {
            Err(SyntaxError::at(SyntaxErrorKind::VariableNotFound, token))
        },
        PartView::PrefixOperator { prefix, expression, token } => if prefix == "-"@ {
            match resolve(*expression, variables, functions) {
                Err(e) => Err(e),
                Ok(operand) => Ok(negation(operand)),
            }
        } else {
            Err(SyntaxError::at(SyntaxErrorKind::UnknownPrefixOperator, token))
        },
        PartView::InfixOperator { operator, left, right, token } => if operator == "="@ {
            match resolve(*left, variables, functions) {
                Err(e) => Err(e),
                Ok(target) => match target {
                    ExpressionView::VariableAccess { variable } => if declares_constant(
                        variables,
                        variable,
                    ) {
                        Err(SyntaxError::at(SyntaxErrorKind::ConstantReassigned, token))
                    } else {
                        match resolve(*right, variables, functions) {
                            Err(e) => Err(e),
                            Ok(value) => Ok(
                                ExpressionView::VariableAssignment {
                                    variable,
                                    value: Box::new(value),
                                },
                            ),
                        }
                    },
                    _ => Err(SyntaxError::at(SyntaxErrorKind::AssignmentTarget, token)),
                },
            }
        } else {
            match MathType::with_symbol(operator) {
                None => Err(SyntaxError::at(SyntaxErrorKind::UnknownInfixOperator, token)),
                Some(math) => match resolve(*left, variables, functions) {
                    Err(e) => Err(e),
                    Ok(var1) => match resolve(*right, variables, functions) {
                        Err(e) => Err(e),
                        Ok(var2) => Ok(
                            ExpressionView::Math {
                                var1: Box::new(var1),
                                var2: Box::new(var2),
                                math,
                            },
                        ),
                    },
                },
            }
        },
        PartView::FunctionInvocation { val, arguments, token } => match *val {
            PartView::Identifier { val: name, token: name_token } => match resolve_list(
                arguments,
                variables,
                functions,
            ) {
                Err(e) => Err(e),
                Ok(resolved) => if has_function(functions, name, resolved.len()) {
                    Ok(ExpressionView::FunctionInvocation { function: name, arguments: resolved })
                } else {
                    Err(SyntaxError::at(SyntaxErrorKind::FunctionNotFound, name_token))
                },
            },
            _ => Err(SyntaxError::at(SyntaxErrorKind::CalleeNotIdentifier, token)),
        },
        PartView::Empty | PartView::Comment => Err(
            SyntaxError::at_end(SyntaxErrorKind::NotAnExpression),
        ),
    }
}

/// The expressions that the trees `list` resolve to, in order, or the error of
/// the first tree that has one.
pub open spec fn resolve_list(
    list: Seq<PartView>,
    variables: Seq<VariableView>,
    functions: Seq<FunctionView>,
) -> Result<Seq<ExpressionView>, SyntaxError>
    decreases list,
{
    if list.len() == 0 {
        Ok(Seq::empty())
    } else {
        match resolve_list(list.drop_last(), variables, functions) {
            Err(e) => Err(e),
            Ok(resolved) => match resolve(list.last(), variables, functions) {
                Err(e) => Err(e),
                Ok(expression) => Ok(resolved.push(expression)),
            },
        }
    }
}

/// Whether `r` is what `expected` says.
pub open spec fn resolved_as(
    r: Result<Expression, SyntaxError>,
    expected: Result<ExpressionView, SyntaxError>,
) -> bool {
    match expected {
        Ok(expression) => r is Ok && r->Ok_0@ == expression,
        Err(e) => r is Err && r->Err_0 == e,
    }
}

/// The place of the first variable named `name` among `variables`.
pub fn find_variable(variables: &Vec<Variable>, name: &str) -> (r: Option<usize>)
    ensures
        r is Some ==> is_first_named(variable_views(variables@), name@, r->0 as int),
        r is None ==> !declares(variable_views(variables@), name@),
{
    let mut i: usize = 0;
    while i < variables.len()
        invariant
            i <= variables.len(),
            forall|j: int| 0 <= j < i ==> (#[trigger] variable_views(variables@)[j]).name != name@,
        decreases variables.len() - i,
    {
        if text_equals(variables[i].name.as_str(), name) {
            return Some(i);
        }
        i += 1;
    }
    None
}

/// The place of the first function named `name` with `arity` parameters
/// among `functions`.
pub fn find_function(functions: &Vec<Function>, name: &str, arity: usize) -> (r: Option<usize>)
    ensures
        r is Some ==> {
            &&& r->0 < functions.len()
            &&& functions[r->0 as int].name@ == name@
            &&& functions[r->0 as int].parameters.len() == arity
            &&& forall|j: int|
                0 <= j < r->0 ==> !((#[trigger] functions[j]).name@ == name@
                    && functions[j].parameters.len() == arity)
        },
        r is Some <==> has_function(function_views(functions@), name@, arity as nat),
{
    let mut i: usize = 0;
    while i < functions.len()
        invariant
            i <= functions.len(),
            forall|j: int|
                0 <= j < i ==> !((#[trigger] functions[j]).name@ == name@
                    && functions[j].parameters.len() == arity),
        decreases functions.len() - i,
    {
        if text_equals(functions[i].name.as_str(), name) && functions[i].parameters.len() == arity {
            assert(function_views(functions@)[i as int].name == name@);
            assert(function_views(functions@)[i as int].parameters.len() == arity);
            return Some(i);
        }
        i += 1;
    }
    assert forall|j: int| 0 <= j < functions.len() implies !((#[trigger] function_views(
        functions@,
    )[j]).name == name@ && function_views(functions@)[j].parameters.len() == arity) by {
        assert(!(functions[j].name@ == name@ && functions[j].parameters.len() == arity));
    }
    None
}

/// Resolves the names in `expr` among the variables `variables` and the
/// functions `functions`.
#[verifier::loop_isolation(false)]
pub fn actual_parse_expression(
    expr: PartExpression,
    variables: &Vec<Variable>,
    functions: &Vec<Function>,
) -> (r: Result<Expression, SyntaxError>)
    ensures
        resolved_as(r, resolve(expr@, variable_views(variables@), function_views(functions@))),
    decreases expr@,
{
    let ghost vars = variable_views(variables@);
    let ghost funs = function_views(functions@);
    match expr {
        PartExpression::Number { val, token } => Ok(Expression::NumberValue { value: val }),
        PartExpression::Identifier { val, token } => {
            if find_variable(variables, val.as_str()).is_some() {
                return Ok(Expression::VariableAccess { variable: val });
            }
            let mut chars = chars_of(val.as_str());
            if chars.len() > 0 && chars[chars.len() - 1] == '*' {
                chars.pop();
                assert(chars@ =~= val@.drop_last());
                let to = string_of(&chars);
                if find_variable(variables, to.as_str()).is_some() {
                    return Ok(Expression::Pointer { to });
                }
            }
            Err(SyntaxError::new(SyntaxErrorKind::VariableNotFound, &token))
        },
        PartExpression::PrefixOperator { prefix, expression, token } => {
            if !text_equals(prefix.as_str(), "-") {
                return Err(SyntaxError::new(SyntaxErrorKind::UnknownPrefixOperator, &token));
            }
            let operand = match actual_parse_expression(*expression, variables, functions) {
                Ok(operand) => operand,
                Err(e) => {
                    return Err(e);
                },
            };
            proof {
                reveal_with_fuel(Expression::model, 3);
            }
            Ok(
                Expression::Math {
                    var1: Box::new(operand.clone()),
                    var2: Box::new(
                        Expression::Math {
                            var1: Box::new(operand),
                            var2: Box::new(Expression::NumberValue { value: Number::from_i64(2) }),
                            math: MathType::Multiply,
                        },
                    ),
                    math: MathType::Subtract,
                },
            )
        },
        PartExpression::InfixOperator { operator, left, right, token } => {
            if text_equals(operator.as_str(), "=") {
                let target = match actual_parse_expression(*left, variables, functions) {
                    Ok(target) => target,
                    Err(e) => {
                        return Err(e);
                    },
                };
                let variable = match target {
                    Expression::VariableAccess { variable } => variable,
                    _ => {
                        return Err(SyntaxError::new(SyntaxErrorKind::AssignmentTarget, &token));
                    },
                };
                match find_variable(variables, variable.as_str()) {
                    Some(i) => {
                        if variables[i].constant {
                            return Err(
                                SyntaxError::new(SyntaxErrorKind::ConstantReassigned, &token),
                            );
                        }
                        assert(!declares_constant(vars, variable@)) by {
                            if declares_constant(vars, variable@) {
                                let k = choose|k: int|
                                    is_first_named(vars, variable@, k) && vars[k].constant;
                                assert(k == i);
                            }
                        }
                    },
                    None => {},
                }
                match actual_parse_expression(*right, variables, functions) {
                    Ok(value) => Ok(
                        Expression::VariableAssignment { variable, value: Box::new(value) },
                    ),
                    Err(e) => Err(e),
                }
            } else {
                let math = match MathType::lookup(operator.as_str()) {
                    Some(math) => math,
                    None => {
                        return Err(SyntaxError::new(SyntaxErrorKind::UnknownInfixOperator, &token));
                    },
                };
                let var1 = match actual_parse_expression(*left, variables, functions) {
                    Ok(var1) => var1,
                    Err(e) => {
                        return Err(e);
                    },
                };
                let var2 = match actual_parse_expression(*right, variables, functions) {
                    Ok(var2) => var2,
                    Err(e) => {
                        return Err(e);
                    },
                };
                Ok(Expression::Math { var1: Box::new(var1), var2: Box::new(var2), math })
            }
        },
        PartExpression::FunctionInvocation { val, arguments, token } => {
            proof {
                reveal_with_fuel(PartExpression::model, 2);
            }
            let (name, name_token) = match *val {
                PartExpression::Identifier { val, token } => (val, token),
                _ => {
                    return Err(SyntaxError::new(SyntaxErrorKind::CalleeNotIdentifier, &token));
                },
            };
            let ghost trees = part_views(arguments@);
            let mut resolved: Vec<Expression> = Vec::new();
            let mut i: usize = 0;
            assert(trees.take(0) =~= Seq::empty());
            assert(expression_views(resolved@) =~= Seq::empty());
            while i < arguments.len()
                invariant
                    i <= arguments.len(),
                    resolve_list(trees.take(i as int), vars, funs) == Ok::<
                        Seq<ExpressionView>,
                        SyntaxError,
                    >(expression_views(resolved@)),
                decreases arguments.len() - i,
            {
                let argument = arguments[i].clone();
                proof {
                    assert(trees.take(i + 1).drop_last() =~= trees.take(i as int));
                    assert(trees.take(i + 1).last() == argument@);
                    lemma_resolve_list_error(trees, i + 1, vars, funs);
                }
                match actual_parse_expression(argument, variables, functions) {
                    Ok(expression) => {
                        proof {
                            lemma_expression_views_push(resolved@, expression);
                        }
                        resolved.push(expression);
                    },
                    Err(e) => {
                        return Err(e);
                    },
                }
                i += 1;
            }
            assert(trees.take(i as int) =~= trees);
            if find_function(functions, name.as_str(), resolved.len()).is_none() {
                return Err(SyntaxError::new(SyntaxErrorKind::FunctionNotFound, &name_token));
            }
            Ok(Expression::FunctionInvocation { function: name, arguments: resolved })
        },
        PartExpression::Empty | PartExpression::Comment => Err(
            SyntaxError::without_token(SyntaxErrorKind::NotAnExpression),
        ),
    }
}

/// An error among the first `n` trees of a list is the error of the whole list.
pub proof fn lemma_resolve_list_error(
    list: Seq<PartView>,
    n: int,
    variables: Seq<VariableView>,
    functions: Seq<FunctionView>,
)
    requires
        0 <= n <= list.len(),
    ensures
        resolve_list(list.take(n), variables, functions) is Err ==> resolve_list(
            list,
            variables,
            functions,
        ) == resolve_list(list.take(n), variables, functions),
    decreases list.len() - n,
{
    if n < list.len() {
        assert(list.take(n + 1).drop_last() =~= list.take(n));
        lemma_resolve_list_error(list, n + 1, variables, functions);
    } else {
        assert(list.take(n) =~= list);
    }
}

/// Parses the expression at the cursor and resolves its names.
pub fn parse_expression(
    queue: &mut TokenQueue,
    variables: &Vec<Variable>,
    functions: &Vec<Function>,
) -> (r: Result<Expression, SyntaxError>)
    ensures
        final(queue).elements == old(queue).elements,
        match parse_part(old(queue).elements@, old(queue).pointer as int, Precedence::Lowest) {
            Ok((tree, next)) => final(queue).pointer == next && resolved_as(
                r,
                resolve(tree, variable_views(variables@), function_views(functions@)),
            ),
            Err(e) => r is Err && r->Err_0 == e,
        },
{
    match parse_expression_part(queue, Precedence::Lowest) {
        Ok(tree) => actual_parse_expression(tree, variables, functions),
        Err(e) => Err(e),
    }
}

} // verus!
