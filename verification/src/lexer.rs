//! Tokens and the line-oriented scanner that produces them.

use crate::error::LexError;
use crate::error::SyntaxError;
use crate::error::SyntaxErrorKind;
use crate::text::chars_of;
use crate::text::string_of;
use crate::text::text_equals;
use regex::Regex;
use vstd::prelude::*;

verus! {

/// One line of a source file, without its comment.
#[derive(Debug)]
pub struct Line {
    pub content: String,
    pub line: usize,
    pub file: String,
}

/// What a [`Line`] denotes.
pub ghost struct LineView {
    pub content: Seq<char>,
    pub line: usize,
    pub file: Seq<char>,
}

impl View for Line {
    type V = LineView;

    open spec fn view(&self) -> LineView {
        LineView { content: self.content@, line: self.line, file: self.file@ }
    }
}

/// The views of the lines `lines`, in order.
pub open spec fn line_views(lines: Seq<Line>) -> Seq<LineView> {
    lines.map_values(|l: Line| l@)
}

/// A kind of token: its name and the pattern that recognises it at the start
/// of a text.
#[derive(Debug, PartialEq)]
pub struct Token {
    pub id: String,
    pub pattern: String,
}

/// A token found in a source file: the matched text, where it stood, and its kind.
#[derive(Debug, PartialEq)]
pub struct LexedToken {
    pub content: String,
    pub line: usize,
    pub index: usize,
    pub line_content: String,
    pub token_type: Token,
    pub file: String,
}

/// The kinds of token that a scanner looks for, in the order in which it tries them.
#[derive(Debug)]
pub struct LexerData {
    pub tokens: Vec<Token>,
}

/// The kinds of token that the parser tells apart.
#[derive(Debug, Clone, Copy, PartialEq, Eq, Structural)]
pub enum TokenKind {
    Let,
    Const,
    Define,
    Where,
    Cache,
    Comma,
    Pipe,
    OpenParenthesis,
    CloseParenthesis,
    Equals,
    NotEquals,
    BiggerOrEquals,
    Bigger,
    SmallerOrEquals,
    Smaller,
    Assign,
    Plus,
    Minus,
    Divide,
    Multiply,
    Pow,
    Number,
    Whitespace,
    Identifier,
    NewLine,
    Other,
}

/// The kind that a token name stands for.
pub open spec fn kind_of(id: Seq<char>) -> TokenKind {
    if id == "LET"@ {
        TokenKind::Let
    } else if id == "CONST"@ {
        TokenKind::Const
    } else if id == "DEFINE"@ {
        TokenKind::Define
    } else if id == "WHERE"@ {
        TokenKind::Where
    } else if id == "CACHE"@ {
        TokenKind::Cache
    } else if id == "COMMA"@ {
        TokenKind::Comma
    } else if id == "PIPE"@ {
        TokenKind::Pipe
    } else if id == "OPEN_PARENTHESIS"@ {
        TokenKind::OpenParenthesis
    } else if id == "CLOSE_PARENTHESIS"@ {
        TokenKind::CloseParenthesis
    } else if id == "EQUALS"@ {
        TokenKind::Equals
    } else if id == "NOT_EQUALS"@ {
        TokenKind::NotEquals
    } else if id == "BIGGER_OR_EQUALS"@ {
        TokenKind::BiggerOrEquals
    } else if id == "BIGGER"@ {
        TokenKind::Bigger
    } else if id == "SMALLER_OR_EQUALS"@ {
        TokenKind::SmallerOrEquals
    } else if id == "SMALLER"@ {
        TokenKind::Smaller
    } else if id == "ASSIGN"@ {
        TokenKind::Assign
    } else if id == "PLUS"@ {
        TokenKind::Plus
    } else if id == "MINUS"@ {
        TokenKind::Minus
    } else if id == "DIVIDE"@ {
        TokenKind::Divide
    } else if id == "MULTIPLY"@ {
        TokenKind::Multiply
    } else if id == "POW"@ {
        TokenKind::Pow
    } else if id == "NUMBER"@ {
        TokenKind::Number
    } else if id == "WHITESPACE"@ {
        TokenKind::Whitespace
    } else if id == "IDENTIFIER"@ {
        TokenKind::Identifier
    } else if id == "NEW_LINE"@ {
        TokenKind::NewLine
    } else {
        TokenKind::Other
    }
}

impl Line {
    /// The text of the line, without its comment.
    pub fn content(&self) -> (r: &String)
        ensures
            r == &self.content,
    {
        &self.content
    }

    /// The number of the line, from zero.
    pub fn line(&self) -> (r: &usize)
        ensures
            r == &self.line,
    {
        &self.line
    }

    /// The name of the file that the line stands in.
    pub fn file(&self) -> (r: &String)
        ensures
            r == &self.file,
    {
        &self.file
    }
}

impl Clone for Token {
    fn clone(&self) -> (r: Self)
        ensures
            r == *self,
    {
        Token { id: self.id.clone(), pattern: self.pattern.clone() }
    }
}

impl Token {
    /// The name of the kind.
    pub fn id(&self) -> (r: &String)
        ensures
            r == &self.id,
    {
        &self.id
    }

    /// The kind that this token's name stands for.
    pub fn kind(&self) -> (r: TokenKind)
        ensures
            r == kind_of(self.id@),
    {
        let id = self.id.as_str();
        if text_equals(id, "LET") {
            TokenKind::Let
        } else if text_equals(id, "CONST") {
            TokenKind::Const
        } else if text_equals(id, "DEFINE") {
            TokenKind::Define
        } else if text_equals(id, "WHERE") {
            TokenKind::Where
        } else if text_equals(id, "CACHE") {
            TokenKind::Cache
        } else if text_equals(id, "COMMA") {
            TokenKind::Comma
        } else if text_equals(id, "PIPE") {
            TokenKind::Pipe
        } else if text_equals(id, "OPEN_PARENTHESIS") {
            TokenKind::OpenParenthesis
        } else if text_equals(id, "CLOSE_PARENTHESIS") {
            TokenKind::CloseParenthesis
        } else if text_equals(id, "EQUALS") {
            TokenKind::Equals
        } else if text_equals(id, "NOT_EQUALS") {
            TokenKind::NotEquals
        } else if text_equals(id, "BIGGER_OR_EQUALS") {
            TokenKind::BiggerOrEquals
        } else if text_equals(id, "BIGGER") {
            TokenKind::Bigger
        } else if text_equals(id, "SMALLER_OR_EQUALS") {
            TokenKind::SmallerOrEquals
        } else if text_equals(id, "SMALLER") {
            TokenKind::Smaller
        } else if text_equals(id, "ASSIGN") {
            TokenKind::Assign
        } else if text_equals(id, "PLUS") {
            TokenKind::Plus
        } else if text_equals(id, "MINUS") {
            TokenKind::Minus
        } else if text_equals(id, "DIVIDE") {
            TokenKind::Divide
        } else if text_equals(id, "MULTIPLY") {
            TokenKind::Multiply
        } else if text_equals(id, "POW") {
            TokenKind::Pow
        } else if text_equals(id, "NUMBER") {
            TokenKind::Number
        } else if text_equals(id, "WHITESPACE") {
            TokenKind::Whitespace
        } else if text_equals(id, "IDENTIFIER") {
            TokenKind::Identifier
        } else if text_equals(id, "NEW_LINE") {
            TokenKind::NewLine
        } else {
            TokenKind::Other
        }
    }

    /// The pattern that recognises the token at the start of a text.
    pub fn regex(&self) -> (r: &String)
        ensures
            r == &self.pattern,
    {
        &self.pattern
    }

    /// The kind of token without a name that recognises the empty text only.
    pub fn empty() -> (r: Token)
        ensures
            r.id@ == Seq::<char>::empty(),
            r.pattern@ == "^$"@,
    {
        Token { id: String::new(), pattern: "^$".to_owned() }
    }

    /// A copy of this kind of token.
    pub fn copy(&self) -> (r: Token)
        ensures
            r == *self,
    {
        self.clone()
    }
}

impl Clone for LexedToken {
    fn clone(&self) -> (r: Self)
        ensures
            r == *self,
    {
        LexedToken {
            content: self.content.clone(),
            line: self.line,
            index: self.index,
            line_content: self.line_content.clone(),
            token_type: self.token_type.clone(),
            file: self.file.clone(),
        }
    }
}

impl LexedToken {
    /// The text of the token.
    pub fn content(&self) -> (r: &String)
        ensures
            r == &self.content,
    {
        &self.content
    }

    /// The kind of the token, as the scanner was given it.
    pub fn token_type(&self) -> (r: &Token)
        ensures
            r == &self.token_type,
    {
        &self.token_type
    }

    /// The kind of the token, as the parser tells kinds apart.
    pub open spec fn kind(&self) -> TokenKind {
        kind_of(self.token_type.id@)
    }

    /// The line of the token, from zero.
    pub fn line(&self) -> (r: &usize)
        ensures
            r == &self.line,
    {
        &self.line
    }

    /// The column of the token in its line, from zero.
    pub fn index(&self) -> (r: &usize)
        ensures
            r == &self.index,
    {
        &self.index
    }

    /// The text of the line of the token.
    pub fn line_content(&self) -> (r: &String)
        ensures
            r == &self.line_content,
    {
        &self.line_content
    }

    /// The token itself where its kind is named `expected`, an error of kind
    /// `kind` at it otherwise.
    pub fn check_id(self, expected: &str, kind: SyntaxErrorKind) -> (r: Result<LexedToken, SyntaxError>)
        ensures
            self.token_type.id@ == expected@ ==> r == Ok::<LexedToken, SyntaxError>(self),
            self.token_type.id@ != expected@ ==> r == Err::<LexedToken, SyntaxError>(
                SyntaxError::at(kind, self),
            ),
    {
        if !text_equals(self.token_type.id.as_str(), expected) {
            return Err(self.err(kind));
        }
        Ok(self)
    }

    /// The token itself where its kind is named as `expected` is, an error of
    /// kind `kind` at it otherwise.
    pub fn check_type(self, expected: Token, kind: SyntaxErrorKind) -> (r: Result<
        LexedToken,
        SyntaxError,
    >)
        ensures
            self.token_type.id@ == expected.id@ ==> r == Ok::<LexedToken, SyntaxError>(self),
            self.token_type.id@ != expected.id@ ==> r == Err::<LexedToken, SyntaxError>(
                SyntaxError::at(kind, self),
            ),
    {
        self.check_id(expected.id.as_str(), kind)
    }

    /// The error of kind `kind` at this token.
    pub fn err(&self, kind: SyntaxErrorKind) -> (r: SyntaxError)
        ensures
            r == SyntaxError::at(kind, *self),
    {
        SyntaxError::new(kind, self)
    }

    /// The error of kind `kind` at this token, with its marker moved to the
    /// right by `offset` columns.
    pub fn err_offset(&self, kind: SyntaxErrorKind, offset: usize) -> (r: SyntaxError)
        requires
            offset <= isize::MAX,
        ensures
            r == SyntaxError::at_offset(kind, *self, offset as isize),
    {
        SyntaxError::with_offset(kind, self, offset as isize)
    }

    /// The error of kind `kind` at this token, with its marker moved to the
    /// left by `offset` columns.
    pub fn err_neg_offset(&self, kind: SyntaxErrorKind, offset: isize) -> (r: SyntaxError)
        requires
            offset > isize::MIN,
        ensures
            r == SyntaxError::at_offset(kind, *self, (-offset) as isize),
    {
        SyntaxError::with_offset(kind, self, -offset)
    }
}

impl LexerData {
    /// The kinds of token, in the order in which they are tried.
    pub fn tokens(&self) -> (r: &Vec<Token>)
        ensures
            r == &self.tokens,
    {
        &self.tokens
    }
}

/// Whether `c` has a meaning of its own in a regular expression.
pub open spec fn is_meta_character(c: char) -> bool {
    c == '\\' || c == '.' || c == '+' || c == '*' || c == '?' || c == '(' || c == ')' || c == '|'
        || c == '[' || c == ']' || c == '{' || c == '}' || c == '^' || c == '$' || c == '#'
        || c == '&' || c == '-' || c == '~'
}

/// The text `text` with a backslash before each character that has a meaning
/// of its own in a regular expression.
pub open spec fn escaped(text: Seq<char>) -> Seq<char>
    decreases text.len(),
{
    if text.len() == 0 {
        Seq::empty()
    } else if is_meta_character(text.last()) {
        escaped(text.drop_last()).push('\\').push(text.last())
    } else {
        escaped(text.drop_last()).push(text.last())
    }
}

/// What the regular expression `pattern` finds in `text`: `None` where
/// `pattern` is no regular expression, else the text of its first match, if
/// it has one.
pub uninterp spec fn regex_match(pattern: Seq<char>, text: Seq<char>) -> Option<Option<Seq<char>>>;

/// The texts inside `found`.
pub open spec fn match_view(found: Option<Option<String>>) -> Option<Option<Seq<char>>> {
    match found {
        None => None,
        Some(None) => Some(None),
        Some(Some(text)) => Some(Some(text@)),
    }
}

/// `regex::escape` puts a backslash before each meta character and leaves
/// the other characters as they are.
#[verifier::external_body]
fn regex_escape(text: &str) -> (r: String)
    ensures
        r@ == escaped(text@),
{
    regex::escape(text)
}

/// `Regex::new` compiles `pattern`, and `Regex::find` gives the first match
/// in `text`. Nothing is claimed of the result but that it depends on the
/// two texts alone.
#[verifier::external_body]
fn regex_find(pattern: &str, text: &str) -> (r: Option<Option<String>>)
    ensures
        match_view(r) == regex_match(pattern@, text@),
{
    match Regex::new(pattern) {
        Ok(regex) => Some(
            match regex.find(text) {
                Some(found) => Some(found.as_str().to_owned()),
                None => None,
            },
        ),
        Err(_) => None,
    }
}

/// The position of the first line end in `text` at or after `from`, or the
/// length of `text` where there is none.
pub open spec fn line_end(text: Seq<char>, from: int) -> int
    decreases text.len() - from,
{
    if from < 0 || from >= text.len() {
        text.len() as int
    } else if text[from] == '\n' {
        from
    } else {
        line_end(text, from + 1)
    }
}

/// The lines of `text` from `from` on. A line ends before a line feed, or
/// before a carriage return that a line feed follows, or where the text
/// ends; a text that ends in a line end has no empty last line.
pub open spec fn lines_from(text: Seq<char>, from: int) -> Seq<Seq<char>>
    decreases text.len() - from,
{
    if from < 0 || from >= text.len() {
        Seq::empty()
    } else {
        let end = line_end(text, from);
        let raw = text.subrange(from, end);
        let line = if end < text.len() && raw.len() > 0 && raw.last() == '\r' {
            raw.drop_last()
        } else {
            raw
        };
        if from <= end < text.len() {
            seq![line] + lines_from(text, end + 1)
        } else {
            seq![line]
        }
    }
}

/// Whether `marker` stands in `text` at position `i`.
pub open spec fn occurs_at(text: Seq<char>, marker: Seq<char>, i: int) -> bool {
    0 <= i && i + marker.len() <= text.len() && text.subrange(i, i + marker.len()) == marker
}

/// The first position at or after `from` at which `marker` stands in `text`,
/// or the length of `text` where it stands nowhere.
pub open spec fn first_occurrence(text: Seq<char>, marker: Seq<char>, from: int) -> int
    decreases text.len() - from,
{
    if from < 0 || from + marker.len() > text.len() {
        text.len() as int
    } else if occurs_at(text, marker, from) {
        from
    } else if from < text.len() {
        first_occurrence(text, marker, from + 1)
    } else {
        text.len() as int
    }
}

/// The part of `line` before the first `marker`; all of it where it holds none.
pub open spec fn before_marker(line: Seq<char>, marker: Seq<char>) -> Seq<char> {
    line.take(first_occurrence(line, marker, 0))
}

/// Whether `marker` stands in `text` at position `i`.
fn marker_at(text: &Vec<char>, marker: &Vec<char>, i: usize) -> (r: bool)
    requires
        i + marker.len() <= text.len(),
    ensures
        r == occurs_at(text@, marker@, i as int),
{
    let mut j: usize = 0;
    while j < marker.len()
        invariant
            j <= marker.len(),
            i + marker.len() <= text.len(),
            text@.subrange(i as int, i + j) == marker@.take(j as int),
        decreases marker.len() - j,
    {
        if text[i + j] != marker[j] {
            assert(text@.subrange(i as int, i + marker.len())[j as int] != marker@[j as int]);
            return false;
        }
        j += 1;
        assert(text@.subrange(i as int, i + j) =~= text@.subrange(i as int, i + j - 1).push(
            text@[i + j - 1],
        ));
        assert(marker@.take(j as int) =~= marker@.take(j - 1).push(marker@[j - 1]));
    }
    assert(marker@.take(j as int) =~= marker@);
    true
}

/// The characters of `text` from `from` up to `to`.
fn slice_of(text: &Vec<char>, from: usize, to: usize) -> (r: Vec<char>)
    requires
        from <= to <= text.len(),
    ensures
        r@ == text@.subrange(from as int, to as int),
{
    let mut out: Vec<char> = Vec::new();
    let mut i: usize = from;
    while i < to
        invariant
            from <= i <= to <= text.len(),
            out@ == text@.subrange(from as int, i as int),
        decreases to - i,
    {
        out.push(text[i]);
        i += 1;
        assert(out@ =~= text@.subrange(from as int, i as int));
    }
    assert(out@ =~= text@.subrange(from as int, to as int));
    out
}

/// The lines of `content`, each cut before the first `comment`, numbered
/// from zero and carrying the name `file`.
pub open spec fn lines_of(content: Seq<char>, comment: Seq<char>, file: Seq<char>) -> Seq<LineView> {
    Seq::new(
        lines_from(content, 0).len(),
        |i: int|
            LineView {
                content: before_marker(lines_from(content, 0)[i], comment),
                line: i as usize,
                file,
            },
    )
}

/// Splits `content` into its lines and cuts each line before the first
/// `comment`. The lines are numbered from zero and carry the name `file`.
#[verifier::loop_isolation(false)]
pub fn read_lines(comment: String, content: String, file: String) -> (r: Vec<Line>)
    ensures
        line_views(r@) == lines_of(content@, comment@, file@),
{
    let text = chars_of(content.as_str());
    let marker = chars_of(comment.as_str());
    let mut lines: Vec<Line> = Vec::new();
    let mut from: usize = 0;
    let ghost all = lines_from(text@, 0);
    assert(all =~= Seq::<Seq<char>>::empty() + lines_from(text@, 0));
    while from < text.len()
        invariant
            from <= text.len(),
            all.len() == lines.len() + lines_from(text@, from as int).len(),
            forall|i: int|
                0 <= i < lines.len() ==> {
                    &&& (#[trigger] lines[i]).content@ == before_marker(all[i], comment@)
                    &&& lines[i].line == i
                    &&& lines[i].file@ == file@
                },
            forall|i: int|
                0 <= i < lines_from(text@, from as int).len() ==> all[lines.len() + i]
                    == #[trigger] lines_from(text@, from as int)[i],
        decreases text.len() - from,
    {
        let ghost rest = lines_from(text@, from as int);
        let mut end: usize = from;
        while end < text.len() && text[end] != '\n'
            invariant
                from <= end <= text.len(),
                line_end(text@, from as int) == line_end(text@, end as int),
            decreases text.len() - end,
        {
            end += 1;
        }
        assert(line_end(text@, from as int) == end);
        let mut stop: usize = end;
        if end < text.len() && end > from && text[end - 1] == '\r' {
            stop = end - 1;
        }
        let line = slice_of(&text, from, stop);
        assert(line@ =~= rest[0]);
        let mut cut: usize = 0;
        if marker.len() == 0 {
            assert(line@.subrange(0, 0) =~= marker@);
        } else if marker.len() > line.len() {
            cut = line.len();
        } else {
            while cut <= line.len() - marker.len() && !marker_at(&line, &marker, cut)
                invariant
                    0 < marker.len() <= line.len(),
                    cut <= line.len(),
                    first_occurrence(line@, marker@, 0) == first_occurrence(
                        line@,
                        marker@,
                        cut as int,
                    ),
                decreases line.len() - cut,
            {
                cut += 1;
            }
            if cut > line.len() - marker.len() {
                cut = line.len();
            }
        }
        assert(first_occurrence(line@, marker@, 0) == cut);
        let kept = slice_of(&line, 0, cut);
        assert(kept@ =~= before_marker(line@, marker@));
        let ghost count = lines.len();
        lines.push(Line { content: string_of(&kept), line: lines.len(), file: file.clone() });
        proof {
            let next = if end < text.len() {
                lines_from(text@, end + 1)
            } else {
                Seq::empty()
            };
            assert(rest =~= seq![rest[0]] + next);
            assert forall|i: int| 0 <= i < next.len() implies all[lines.len() + i] == next[i] by {
                assert(rest[i + 1] == next[i]);
                assert(all[count + (i + 1)] == rest[i + 1]);
            }
            assert(all[count as int] == rest[0]);
        }
        if end == text.len() {
            from = end;
        } else {
            from = end + 1;
        }
    }
    assert(line_views(lines@) =~= lines_of(content@, comment@, file@));
    lines
}

/// The kinds of token `tokens` as the data of a scanner.
pub fn data(tokens: Vec<Token>) -> (r: LexerData)
    ensures
        r.tokens == tokens,
{
    LexerData { tokens }
}

/// The pattern of a kind of token: `regex` itself where `is_regex` holds,
/// else the pattern that matches the text `regex` literally; in both cases
/// tied to the start of the text.
pub open spec fn token_pattern(regex: Seq<char>, is_regex: bool) -> Seq<char> {
    if is_regex {
        seq!['^'] + regex
    } else {
        seq!['^'] + escaped(regex)
    }
}

/// The kind of token named `id` that `regex` recognises at the start of a
/// text, as a regular expression where `is_regex` holds, else literally.
pub fn token(id: &str, regex: &str, is_regex: bool) -> (r: Token)
    ensures
        r.id@ == id@,
        r.pattern@ == token_pattern(regex@, is_regex),
{
    let mut pattern = String::new();
    pattern.push('^');
    let body = if is_regex {
        regex.to_owned()
    } else {
        regex_escape(regex)
    };
    let chars = chars_of(body.as_str());
    let mut i: usize = 0;
    assert(pattern@ =~= seq!['^'] + chars@.take(0));
    while i < chars.len()
        invariant
            i <= chars.len(),
            pattern@ == seq!['^'] + chars@.take(i as int),
        decreases chars.len() - i,
    {
        pattern.push(chars[i]);
        i += 1;
        assert(pattern@ =~= seq!['^'] + chars@.take(i as int));
    }
    assert(chars@.take(i as int) =~= chars@);
    Token { id: id.to_owned(), pattern }
}

/// What a scanned token denotes.
pub ghost struct LexedTokenView {
    pub content: Seq<char>,
    pub line: int,
    pub index: int,
    pub line_content: Seq<char>,
    pub id: Seq<char>,
    pub pattern: Seq<char>,
    pub file: Seq<char>,
}

impl View for LexedToken {
    type V = LexedTokenView;

    open spec fn view(&self) -> LexedTokenView {
        LexedTokenView {
            content: self.content@,
            line: self.line as int,
            index: self.index as int,
            line_content: self.line_content@,
            id: self.token_type.id@,
            pattern: self.token_type.pattern@,
            file: self.file@,
        }
    }
}

/// The views of the tokens `tokens`, in order.
pub open spec fn token_views(tokens: Seq<LexedToken>) -> Seq<LexedTokenView> {
    tokens.map_values(|t: LexedToken| t@)
}

/// Whether the kind of token with the pattern `pattern` recognises a token
/// at the start of `rest`: its first match is not empty and starts `rest`.
pub open spec fn recognises(pattern: Seq<char>, rest: Seq<char>) -> bool {
    regex_match(pattern, rest) matches Some(Some(found)) && found.len() > 0 && found.is_prefix_of(
        rest,
    )
}

/// The first kind among `kinds` from place `from` on that recognises a token
/// at the start of `rest`, with the text of the token. The error that a
/// pattern tried before it is no regular expression; `Ok(None)` where no kind
/// recognises a token.
pub open spec fn first_kind(kinds: Seq<Token>, from: int, rest: Seq<char>) -> Result<
    Option<(int, Seq<char>)>,
    LexError,
>
    decreases kinds.len() - from,
{
    if from < 0 || from >= kinds.len() {
        Ok(None)
    } else {
        match regex_match(kinds[from].pattern@, rest) {
            None => Err(LexError::InvalidPattern { token: from as usize }),
            Some(found) => if recognises(kinds[from].pattern@, rest) {
                Ok(Some((from, found->0)))
            } else {
                first_kind(kinds, from + 1, rest)
            },
        }
    }
}

/// The token that ends a line.
pub open spec fn line_end_token(line: LineView, index: int) -> LexedTokenView {
    LexedTokenView {
        content: seq!['\n'],
        line: line.line as int,
        index,
        line_content: seq!['?'],
        id: "NEW_LINE"@,
        pattern: token_pattern(seq!['\n'], false),
        file: line.file,
    }
}

/// The tokens of the line `line`, which stands at place `place` among the
/// lines, from column `index` on, and the token that ends the line.
pub open spec fn line_tokens(kinds: Seq<Token>, line: LineView, place: usize, index: usize) -> Result<
    Seq<LexedTokenView>,
    LexError,
>
    decreases line.content.len() - index,
{
    if index >= line.content.len() {
        Ok(seq![line_end_token(line, index as int)])
    } else {
        match first_kind(kinds, 0, line.content.skip(index as int)) {
            Err(e) => Err(e),
            Ok(None) => Err(LexError::Unrecognized { line: line.line, index }),
            Ok(Some((kind, text))) => if text.len() > 0 && index + text.len() <= line.content.len()
                && index + text.len() <= usize::MAX && 0 <= kind < kinds.len() {
                match line_tokens(kinds, line, place, (index + text.len()) as usize) {
                    Err(e) => Err(e),
                    Ok(rest) => Ok(
                        seq![
                            LexedTokenView {
                                content: text,
                                line: place as int,
                                index: index as int,
                                line_content: line.content,
                                id: kinds[kind].id@,
                                pattern: kinds[kind].pattern@,
                                file: line.file,
                            },
                        ] + rest,
                    ),
                }
            } else {
                Err(LexError::Unrecognized { line: line.line, index })
            },
        }
    }
}

/// The tokens of the first `n` lines of `lines`, in order.
pub open spec fn lines_tokens(kinds: Seq<Token>, lines: Seq<LineView>, n: nat) -> Result<
    Seq<LexedTokenView>,
    LexError,
>
    decreases n,
{
    if n == 0 {
        Ok(Seq::empty())
    } else {
        match lines_tokens(kinds, lines, (n - 1) as nat) {
            Err(e) => Err(e),
            Ok(before) => match line_tokens(kinds, lines[n - 1], (n - 1) as usize, 0usize) {
                Err(e) => Err(e),
                Ok(tokens) => Ok(before + tokens),
            },
        }
    }
}

/// The texts of the tokens `tokens` but the last, one after the other.
pub open spec fn joined_contents(tokens: Seq<LexedTokenView>) -> Seq<char>
    decreases tokens.len(),
{
    if tokens.len() <= 1 {
        Seq::empty()
    } else {
        tokens[0].content + joined_contents(tokens.skip(1))
    }
}

/// The tokens of a line lose nothing of it: their texts, one after the
/// other, are the text of the line from the column at which the scan began,
/// the first token stands at that column, and the token that ends the line
/// comes last.
pub proof fn lemma_tokens_cover_line(kinds: Seq<Token>, line: LineView, place: usize, index: usize)
    requires
        index <= line.content.len(),
        line_tokens(kinds, line, place, index) is Ok,
    ensures
        ({
            let tokens = line_tokens(kinds, line, place, index)->Ok_0;
            &&& tokens.len() >= 1
            &&& tokens[0].index == index
            &&& tokens.last() == line_end_token(line, line.content.len() as int)
            &&& joined_contents(tokens) == line.content.skip(index as int)
        }),
    decreases line.content.len() - index,
{
    let tokens = line_tokens(kinds, line, place, index)->Ok_0;
    if index >= line.content.len() {
        assert(line.content.skip(index as int) =~= Seq::<char>::empty());
    } else {
        let rest = line.content.skip(index as int);
        let found = first_kind(kinds, 0, rest)->Ok_0->0;
        let text = found.1;
        lemma_first_kind_recognises(kinds, 0, rest);
        let next = (index + text.len()) as usize;
        lemma_tokens_cover_line(kinds, line, place, next);
        let tail = line_tokens(kinds, line, place, next)->Ok_0;
        assert(tokens.skip(1) =~= tail);
        assert(text + line.content.skip(next as int) =~= rest) by {
            assert(text == rest.subrange(0, text.len() as int));
        }
    }
}

/// The text that [`first_kind`] gives begins the text that was scanned.
proof fn lemma_first_kind_recognises(kinds: Seq<Token>, from: int, rest: Seq<char>)
    requires
        first_kind(kinds, from, rest) matches Ok(Some(_)),
    ensures
        first_kind(kinds, from, rest) matches Ok(Some(found)) && found.1.len() > 0
            && found.1.is_prefix_of(rest),
    decreases kinds.len() - from,
{
    if 0 <= from < kinds.len() {
        if !recognises(kinds[from].pattern@, rest) {
            lemma_first_kind_recognises(kinds, from + 1, rest);
        }
    }
}

/// An error in the first `n` lines is the error of every longer run.
proof fn lemma_lines_tokens_error(kinds: Seq<Token>, lines: Seq<LineView>, n: nat, m: nat)
    requires
        n <= m,
        lines_tokens(kinds, lines, n) is Err,
    ensures
        lines_tokens(kinds, lines, m) == lines_tokens(kinds, lines, n),
    decreases m - n,
{
    if n < m {
        lemma_lines_tokens_error(kinds, lines, n, (m - 1) as nat);
    }
}

/// Whether `found` starts `rest`.
fn starts(found: &Vec<char>, rest: &Vec<char>) -> (r: bool)
    ensures
        r == found@.is_prefix_of(rest@),
{
    if found.len() > rest.len() {
        return false;
    }
    let mut i: usize = 0;
    while i < found.len()
        invariant
            i <= found.len() <= rest.len(),
            found@.take(i as int) == rest@.take(i as int),
        decreases found.len() - i,
    {
        if found[i] != rest[i] {
            assert(found@[i as int] != rest@.subrange(0, found@.len() as int)[i as int]);
            return false;
        }
        i += 1;
        assert(found@.take(i as int) =~= found@.take(i - 1).push(found@[i - 1]));
        assert(rest@.take(i as int) =~= rest@.take(i - 1).push(rest@[i - 1]));
    }
    assert(found@.take(i as int) =~= found@);
    assert(rest@.take(i as int) =~= rest@.subrange(0, found@.len() as int));
    true
}

/// Finds the first kind among `kinds` that recognises a token at the start
/// of `rest`, and the characters of the token.
#[verifier::loop_isolation(false)]
fn find_kind(kinds: &Vec<Token>, rest: &Vec<char>) -> (r: Result<Option<(usize, Vec<char>)>, LexError>)
    ensures
        match first_kind(kinds@, 0, rest@) {
            Err(e) => r is Err && r->Err_0 == e,
            Ok(None) => r is Ok && r->Ok_0 is None,
            Ok(Some((kind, text))) => r matches Ok(Some(found)) && found.0 == kind && found.1@ == text
                && kind < kinds.len() && text.len() > 0 && text.is_prefix_of(rest@),
        },
{
    let text = string_of(rest);
    let mut k: usize = 0;
    while k < kinds.len()
        invariant
            k <= kinds.len(),
            first_kind(kinds@, 0, rest@) == first_kind(kinds@, k as int, rest@),
        decreases kinds.len() - k,
    {
        match regex_find(kinds[k].pattern.as_str(), text.as_str()) {
            None => {
                return Err(LexError::InvalidPattern { token: k });
            },
            Some(None) => {},
            Some(Some(found)) => {
                let chars = chars_of(found.as_str());
                if chars.len() > 0 && starts(&chars, rest) {
                    return Ok(Some((k, chars)));
                }
            },
        }
        k += 1;
    }
    Ok(None)
}

/// Splits the line `line`, which stands at place `place` among the lines,
/// into tokens and adds them to `tokens`.
#[verifier::loop_isolation(false)]
fn lex_line(kinds: &Vec<Token>, line: &Line, place: usize, tokens: &mut Vec<LexedToken>) -> (r: Result<
    (),
    LexError,
>)
    ensures
        match line_tokens(kinds@, line@, place, 0usize) {
            Err(e) => r is Err && r->Err_0 == e,
            Ok(found) => r is Ok && token_views(final(tokens)@) == token_views(old(tokens)@) + found,
        },
{
    let content = chars_of(line.content.as_str());
    let ghost before = token_views(tokens@);
    let ghost all = line_tokens(kinds@, line@, place, 0usize);
    let mut index: usize = 0;
    let ghost mut scanned: Seq<LexedTokenView> = Seq::empty();
    assert(token_views(tokens@) =~= before + scanned);
    while index < content.len()
        invariant
            index <= content.len(),
            content@ == line.content@,
            token_views(tokens@) == before + scanned,
            match line_tokens(kinds@, line@, place, index) {
                Err(e) => all is Err && all->Err_0 == e,
                Ok(rest) => all is Ok && all->Ok_0 == scanned + rest,
            },
        decreases content.len() - index,
    {
        let rest = slice_of(&content, index, content.len());
        assert(rest@ =~= line.content@.skip(index as int));
        let (kind, text) = match find_kind(kinds, &rest) {
            Err(e) => {
                return Err(e);
            },
            Ok(None) => {
                return Err(LexError::Unrecognized { line: line.line, index });
            },
            Ok(Some(found)) => found,
        };
        let token = LexedToken {
            content: string_of(&text),
            line: place,
            index,
            line_content: line.content.clone(),
            token_type: kinds[kind].clone(),
            file: line.file.clone(),
        };
        proof {
            assert(index + text@.len() <= content@.len());
            let tail = line_tokens(kinds@, line@, place, (index + text@.len()) as usize);
            if tail is Ok {
                assert(scanned.push(token@) + tail->Ok_0 =~= scanned + (seq![token@] + tail->Ok_0));
            }
            assert(token_views(tokens@.push(token)) =~= token_views(tokens@).push(token@));
            assert(token_views(tokens@).push(token@) =~= before + scanned.push(token@));
            scanned = scanned.push(token@);
        }
        tokens.push(token);
        index += text.len();
    }
    let mut content_of_end = String::new();
    content_of_end.push('\n');
    let mut unknown = String::new();
    unknown.push('?');
    let token = LexedToken {
        content: content_of_end,
        line: line.line,
        index,
        line_content: unknown,
        token_type: self::token("NEW_LINE", "\n", false),
        file: line.file.clone(),
    };
    proof {
        reveal_strlit("\n");
        assert("\n"@ =~= seq!['\n']);
        assert(token@.content =~= seq!['\n']);
        assert(token@.line_content =~= seq!['?']);
        assert(token@ == line_end_token(line@, index as int));
        assert(token_views(tokens@.push(token)) =~= token_views(tokens@).push(token@));
        assert(token_views(tokens@).push(token@) =~= before + (scanned + seq![token@]));
    }
    tokens.push(token);
    Ok(())
}

/// Splits the lines `lines` into tokens: at each column the first kind of
/// `data` that recognises a token there gives the token, and a token that
/// ends the line follows each line.
#[verifier::loop_isolation(false)]
pub fn lex(lines: Vec<Line>, data: LexerData) -> (r: Result<Vec<LexedToken>, LexError>)
    ensures
        match lines_tokens(data.tokens@, line_views(lines@), lines.len() as nat) {
            Err(e) => r is Err && r->Err_0 == e,
            Ok(tokens) => r is Ok && token_views(r->Ok_0@) == tokens,
        },
{
    let mut tokens: Vec<LexedToken> = Vec::new();
    let mut i: usize = 0;
    assert(token_views(tokens@) =~= Seq::empty());
    while i < lines.len()
        invariant
            i <= lines.len(),
            lines_tokens(data.tokens@, line_views(lines@), i as nat) == Ok::<Seq<LexedTokenView>, LexError>(
                token_views(tokens@),
            ),
        decreases lines.len() - i,
    {
        match lex_line(&data.tokens, &lines[i], i, &mut tokens) {
            Ok(()) => {},
            Err(e) => {
                proof {
                    lemma_lines_tokens_error(
                        data.tokens@,
                        line_views(lines@),
                        (i + 1) as nat,
                        lines.len() as nat,
                    );
                }
                return Err(e);
            },
        }
        i += 1;
    }
    Ok(tokens)
}

/// Splits the text `content` of the file `file` into tokens, comments
/// starting with `comment` left out.
pub fn full_lex(content: String, file: String, comment: String, data: LexerData) -> (r: Result<
    Vec<LexedToken>,
    LexError,
>)
    ensures
        match lines_tokens(
            data.tokens@,
            lines_of(content@, comment@, file@),
            lines_of(content@, comment@, file@).len(),
        ) {
            Err(e) => r is Err && r->Err_0 == e,
            Ok(tokens) => r is Ok && token_views(r->Ok_0@) == tokens,
        },
{
    let lines = read_lines(comment, content, file);
    lex(lines, data)
}

} // verus!
