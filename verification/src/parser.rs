//! The parser: from tokens to the syntax tree of one L-system.
//!
//! ```text
//! item       := 'lsystem' IDENT '{' statement* '}'
//! statement  := axiom | replace | interpret | let
//! axiom      := 'axiom' symbol-run ';'
//! replace    := 'replace' symbol-run 'by' symbol-run ';'
//! interpret  := 'interpret' SYMBOL 'as' IDENT '(' param-list ')' ';'
//! let        := 'let' ... ';'
//! param-list := param (',' param)*
//! param      := NUMBER | IDENT | param op param | '(' param ')'
//! ```
//!
//! Operators have no precedence: a parameter folds from left to right, so
//! that `1+2*3` is `(1+2)*3`. Every operator is read, also those that the
//! evaluation of parameters does not know.

use vstd::prelude::*;
use crate::abs::{
    params_view, statements_view, Action, ActionParam, ActionView, BinOpKind, ExprKind, ExprView,
    Item, ItemKind, ItemView, ParamView, StatementKind, StatementView, P,
};
use crate::lexer::{token_text, tokens_view, Token, TokenView};
use crate::grammar::{DefaultAlphabetSymbolDefiner, SymbolDefiner};
use crate::lsystem::{bindings_view, ContextSensitiveRuleCB, LSystem, ParametricRuleCB};
use crate::text::{lemma_vec_fits, same_text};
use crate::number::{is_integer_literal, Number};

verus! {

/// Symbols that the parser can stand for.
#[derive(PartialEq, Eq, Clone, Debug)]
pub enum ParsedToken {
    Function,
    Add,
    Sub,
    Mul,
}

/// What the parser expected where it stopped.
#[derive(PartialEq, Eq, Clone, Copy, Debug, Structural)]
pub enum ParseErrorKind {
    /// The script does not start with the keyword `lsystem`.
    ExpectedLSystemKeyword,
    /// No name follows the keyword `lsystem`.
    ExpectedLSystemName,
    /// No `{` follows the name of the L-system.
    ExpectedOpeningBrace,
    /// The tokens end before the `}` that closes the L-system.
    ExpectedClosingBrace,
    /// A token that starts no statement stands where a statement is due.
    ExpectedStatement,
    /// A statement is not closed by `;`.
    ExpectedBreak,
    /// The initial string holds a token that is neither a symbol nor an identifier.
    ExpectedSymbol,
    /// The keyword `by` does not follow the predecessor of a replacement.
    ExpectedBy,
    /// The keyword `as` does not follow the trigger of an interpretation.
    ExpectedAs,
    /// An interpretation names no trigger, or more than one.
    ExpectedOneTrigger,
    /// No action name follows the keyword `as`.
    ExpectedActionName,
    /// No `(` follows the name of an action.
    ExpectedOpeningParam,
    /// A parameter list or a group is not closed by `)`.
    ExpectedClosingParam,
    /// A value is due: a number, an identifier or a group.
    ExpectedParameter,
    /// A symbol that is no operator stands in a parameter.
    UnexpectedSymbol,
}

/// A failure of the parser: what it expected, and the index of the token
/// at which it stopped (the number of tokens where they ran out).
#[derive(PartialEq, Eq, Clone, Copy, Debug, Structural)]
pub struct ParseError {
    pub kind: ParseErrorKind,
    pub at: usize,
}

/// The error of kind `kind` at position `pos`.
pub open spec fn fail<T>(kind: ParseErrorKind, pos: int) -> Result<T, ParseError> {
    Err(ParseError { kind, at: pos as usize })
}

/// The tokens without the spaces among them.
pub open spec fn without_spaces(tokens: Seq<TokenView>) -> Seq<TokenView>
    decreases tokens.len(),
{
    if tokens.len() == 0 {
        Seq::empty()
    } else if tokens.last() is Space {
        without_spaces(tokens.drop_last())
    } else {
        without_spaces(tokens.drop_last()).push(tokens.last())
    }
}

/// Tokens with a cursor.
#[derive(PartialEq, Debug)]
pub struct LexedTokens {
    pub tokens: Vec<Token>,
    index: usize,
}

impl Clone for LexedTokens {
    fn clone(&self) -> (r: Self)
        ensures
            r.views() == self.views(),
            r.position() == self.position(),
    {
        let mut tokens: Vec<Token> = Vec::new();
        let mut i: usize = 0;
        while i < self.tokens.len()
            invariant
                i <= self.tokens@.len(),
                tokens@.len() == i,
                forall|j: int| 0 <= j < i ==> tokens@[j]@ == self.tokens@[j]@,
            decreases self.tokens@.len() - i,
        {
            tokens.push(self.tokens[i].clone());
            i += 1;
        }
        assert(tokens_view(tokens@) =~= tokens_view(self.tokens@));
        LexedTokens { tokens, index: self.index }
    }
}

impl LexedTokens {
    /// The views of the tokens.
    pub closed spec fn views(&self) -> Seq<TokenView> {
        tokens_view(self.tokens@)
    }

    /// Where the cursor stands.
    pub closed spec fn position(&self) -> int {
        self.index as int
    }

    /// The tokens of `input` that are no spaces, with the cursor on the
    /// first of them.
    pub fn new(input: Vec<Token>) -> (r: Self)
        ensures
            r.views() == without_spaces(tokens_view(input@)),
            r.position() == 0,
    {
        let mut tokens: Vec<Token> = Vec::new();
        let mut i: usize = 0;
        while i < input.len()
            invariant
                i <= input@.len(),
                tokens_view(tokens@) == without_spaces(tokens_view(input@).take(i as int)),
            decreases input@.len() - i,
        {
            let ghost before = tokens_view(tokens@);
            proof {
                let all = tokens_view(input@);
                assert(all.take(i + 1).drop_last() =~= all.take(i as int));
                assert(all.take(i + 1).last() == input@[i as int]@);
            }
            match &input[i] {
                Token::Space => {},
                token => {
                    tokens.push(token.clone());
                    assert(tokens_view(tokens@) =~= before.push(input@[i as int]@));
                },
            }
            i += 1;
        }
        assert(tokens_view(input@).take(input@.len() as int) =~= tokens_view(input@));
        LexedTokens { tokens, index: 0 }
    }

    /// Whether the cursor is past the last token.
    pub fn finished(&self) -> (r: bool)
        ensures
            r == (self.position() >= self.views().len()),
    {
        self.index >= self.tokens.len()
    }

    /// The token under the cursor.
    pub fn current_token_ref(&self) -> (r: Option<&Token>)
        ensures
            match r {
                Some(token) => self.position() < self.views().len() && token@
                    == self.views()[self.position()],
                None => self.position() >= self.views().len(),
            },
    {
        if self.index < self.tokens.len() {
            Some(&self.tokens[self.index])
        } else {
            None
        }
    }

    /// A copy of the token under the cursor.
    pub fn current_token(&self) -> (r: Option<Token>)
        ensures
            match r {
                Some(token) => self.position() < self.views().len() && token@
                    == self.views()[self.position()],
                None => self.position() >= self.views().len(),
            },
    {
        if self.index < self.tokens.len() {
            Some(self.tokens[self.index].clone())
        } else {
            None
        }
    }

    /// Moves the cursor one token on.
    pub fn advance(&mut self)
        ensures
            final(self).views() == old(self).views(),
            final(self).position() == if old(self).position() < usize::MAX {
                old(self).position() + 1
            } else {
                old(self).position()
            },
    {
        if self.index < usize::MAX {
            self.index += 1;
        }
    }

    /// Moves the cursor `count` tokens on.
    pub fn advance_by(&mut self, count: usize)
        ensures
            final(self).views() == old(self).views(),
            final(self).position() == if old(self).position() + count <= usize::MAX {
                old(self).position() + count
            } else {
                usize::MAX as int
            },
    {
        self.index = self.index.saturating_add(count);
    }
}

/// What a spec-level parser returns: what it read and where it stopped, or
/// the failure.
pub type Parsed<T> = Result<(T, int), ParseError>;

/// The operator that a symbol stands for where `=` follows it, and where
/// it does not.
pub open spec fn operator_of(c: char, equals: bool) -> Option<BinOpKind> {
    if c == '+' {
        Some(BinOpKind::Add)
    } else if c == '-' {
        Some(BinOpKind::Sub)
    } else if c == '*' {
        Some(BinOpKind::Mul)
    } else if c == '/' {
        Some(BinOpKind::Div)
    } else if c == '%' {
        Some(BinOpKind::Rem)
    } else if c == '^' {
        Some(BinOpKind::BitXor)
    } else if c == '&' {
        Some(BinOpKind::BitAnd)
    } else if c == '|' {
        Some(BinOpKind::BitOr)
    } else if c == '<' {
        Some(if equals { BinOpKind::Le } else { BinOpKind::Lt })
    } else if c == '>' {
        Some(if equals { BinOpKind::Ge } else { BinOpKind::Gt })
    } else if c == '!' && equals {
        Some(BinOpKind::Ne)
    } else {
        None
    }
}

/// Whether the symbol `=` stands at `pos`.
pub open spec fn equals_at(ts: Seq<TokenView>, pos: int) -> bool {
    0 <= pos < ts.len() && ts[pos] == TokenView::Symbol('=')
}

/// The operator that stands at `pos`, and behind which token it ends. The
/// operators `<=`, `>=` and `!=` are two symbols; a symbol that is followed
/// by `=` is read with it.
pub open spec fn operator_at(ts: Seq<TokenView>, pos: int) -> Option<(BinOpKind, int)> {
    if pos < 0 || pos >= ts.len() {
        None
    } else {
        match ts[pos] {
            TokenView::Symbol(c) => match operator_of(c, equals_at(ts, pos + 1)) {
                Some(op) => Some(
                    (
                        op,
                        if op == BinOpKind::Le || op == BinOpKind::Ge || op == BinOpKind::Ne {
                            pos + 2
                        } else {
                            pos + 1
                        },
                    ),
                ),
                None => None,
            },
            _ => None,
        }
    }
}

/// Whether a point between two literals written with digits only stands at
/// `pos + 1`, so that the three tokens are one number.
pub open spec fn fraction_follows(ts: Seq<TokenView>, pos: int) -> bool {
    &&& pos + 2 < ts.len()
    &&& ts[pos] matches TokenView::Number(whole)
    &&& ts[pos + 1] == TokenView::Symbol('.')
    &&& ts[pos + 2] matches TokenView::Number(fraction)
    &&& is_integer_literal(whole)
    &&& is_integer_literal(fraction)
}

/// One operand at `pos`: a number, a number with its fraction, an
/// identifier, or a parameter between `(` and `)`.
pub open spec fn operand_at(ts: Seq<TokenView>, pos: int) -> Parsed<ParamView>
    decreases ts.len() - pos, 0nat,
{
    if pos < 0 || pos >= ts.len() {
        fail(ParseErrorKind::ExpectedParameter, pos)
    } else {
        match ts[pos] {
            TokenView::Number(n) => if fraction_follows(ts, pos) {
                Ok((ParamView::Number(n + seq!['.'] + ts[pos + 2]->Number_0), pos + 3))
            } else {
                Ok((ParamView::Number(n), pos + 1))
            },
            TokenView::Ident(name) => Ok((ParamView::Constant(name), pos + 1)),
            TokenView::Param(c) => if c == '(' {
                match parameter_at(ts, pos + 1) {
                    Ok((value, end)) => if end < ts.len() && ts[end] == TokenView::Param(')') {
                        Ok((value, end + 1))
                    } else {
                        fail(ParseErrorKind::ExpectedClosingParam, end)
                    },
                    Err(e) => Err(e),
                }
            } else {
                fail(ParseErrorKind::ExpectedParameter, pos)
            },
            _ => fail(ParseErrorKind::ExpectedParameter, pos),
        }
    }
}

/// The parameter that starts with `left` and goes on at `pos`: as long as an
/// operator stands there, the operand behind it joins what was read so far
/// as the right side.
pub open spec fn folded_at(ts: Seq<TokenView>, pos: int, left: ParamView) -> Parsed<ParamView>
    decreases ts.len() - pos, 0nat,
{
    match operator_at(ts, pos) {
        Some((op, behind)) => match operand_at(ts, behind) {
            Ok((right, end)) => if pos < end <= ts.len() {
                folded_at(
                    ts,
                    end,
                    ParamView::Expression(ExprView::Binary(op, Box::new(left), Box::new(right))),
                )
            } else {
                fail(ParseErrorKind::ExpectedParameter, pos)
            },
            Err(e) => Err(e),
        },
        None => Ok((left, pos)),
    }
}

/// One parameter at `pos`: an operand, folded with what follows it.
pub open spec fn parameter_at(ts: Seq<TokenView>, pos: int) -> Parsed<ParamView>
    decreases ts.len() - pos, 1nat,
{
    match operand_at(ts, pos) {
        Ok((first, end)) => if pos <= end <= ts.len() {
            folded_at(ts, end, first)
        } else {
            fail(ParseErrorKind::ExpectedParameter, pos)
        },
        Err(e) => Err(e),
    }
}

/// What ends a parameter that was read up to `end` with the value `value`:
/// a comma or a `)`, behind which reading stops.
pub open spec fn ended_at(ts: Seq<TokenView>, end: int, value: ParamView) -> Parsed<ParamView> {
    if end < 0 || end >= ts.len() {
        fail(ParseErrorKind::ExpectedClosingParam, end)
    } else if ts[end] == TokenView::Symbol(',') || ts[end] == TokenView::Param(')') {
        Ok((value, end + 1))
    } else if ts[end] is Symbol {
        fail(ParseErrorKind::UnexpectedSymbol, end)
    } else {
        fail(ParseErrorKind::ExpectedClosingParam, end)
    }
}

/// The parameter that goes on at `pos` after `prev`, with the comma or the
/// `)` that ends it: a whole parameter where `prev` is empty, else `prev`
/// folded with what follows. It fails where no token is left at `pos`, and
/// where the tokens run out before the parameter is ended.
pub open spec fn continued_at(ts: Seq<TokenView>, pos: int, prev: ParamView) -> Parsed<ParamView> {
    if pos < 0 || pos >= ts.len() {
        fail(ParseErrorKind::ExpectedParameter, pos)
    } else {
        match (if prev is Empty {
            parameter_at(ts, pos)
        } else {
            folded_at(ts, pos, prev)
        }) {
            Ok((value, end)) => ended_at(ts, end, value),
            Err(e) => Err(e),
        }
    }
}

/// The parameters from `pos` to the `)` that closes the list, behind those
/// in `read`, with commas between them.
pub open spec fn parameters_from(ts: Seq<TokenView>, pos: int, read: Seq<ParamView>) -> Parsed<
    Seq<ParamView>,
>
    decreases ts.len() - pos,
{
    match parameter_at(ts, pos) {
        Ok((value, end)) => if end <= pos || end >= ts.len() {
            fail(ParseErrorKind::ExpectedClosingParam, end)
        } else if ts[end] == TokenView::Symbol(',') {
            parameters_from(ts, end + 1, read.push(value))
        } else if ts[end] == TokenView::Param(')') {
            Ok((read.push(value), end + 1))
        } else if ts[end] is Symbol {
            fail(ParseErrorKind::UnexpectedSymbol, end)
        } else {
            fail(ParseErrorKind::ExpectedClosingParam, end)
        },
        Err(e) => Err(e),
    }
}

/// The parameter list at `pos`: `(`, parameters with commas between them
/// (or none), and `)`.
pub open spec fn parameter_list_at(ts: Seq<TokenView>, pos: int) -> Parsed<Seq<ParamView>> {
    if pos < 0 || pos >= ts.len() || ts[pos] != TokenView::Param('(') {
        fail(ParseErrorKind::ExpectedOpeningParam, pos)
    } else if pos + 1 < ts.len() && ts[pos + 1] == TokenView::Param(')') {
        Ok((Seq::empty(), pos + 2))
    } else {
        parameters_from(ts, pos + 1, Seq::empty())
    }
}

/// An operand, and so a parameter, ends behind where it starts.
pub proof fn lemma_parameter_advances(ts: Seq<TokenView>, pos: int)
    requires
        0 <= pos,
    ensures
        operand_at(ts, pos) matches Ok((_, end)) ==> pos < end <= ts.len(),
        parameter_at(ts, pos) matches Ok((_, end)) ==> pos < end <= ts.len(),
    decreases ts.len() - pos, 1nat,
{
    if pos < ts.len() {
        match ts[pos] {
            TokenView::Param(c) => {
                if c == '(' {
                    lemma_parameter_advances(ts, pos + 1);
                }
            },
            _ => {},
        }
        match operand_at(ts, pos) {
            Ok((first, end)) => {
                lemma_folded_advances(ts, end, first);
            },
            Err(_) => {},
        }
    }
}

/// Folding never moves back.
pub proof fn lemma_folded_advances(ts: Seq<TokenView>, pos: int, left: ParamView)
    requires
        0 <= pos <= ts.len(),
    ensures
        folded_at(ts, pos, left) matches Ok((_, end)) ==> pos <= end <= ts.len(),
    decreases ts.len() - pos, 0nat,
{
    if operator_at(ts, pos) is Some {
        let (op, behind) = operator_at(ts, pos)->0;
        lemma_parameter_advances(ts, behind);
        match operand_at(ts, behind) {
            Ok((right, end)) => {
                lemma_folded_advances(
                    ts,
                    end,
                    ParamView::Expression(ExprView::Binary(op, Box::new(left), Box::new(right))),
                );
            },
            Err(_) => {},
        }
    }
}

/// Whether `r` and the cursor after the call are what `expected` says of a
/// parser that started with the cursor as it was before.
pub open spec fn reads_param(
    before: LexedTokens,
    after: LexedTokens,
    r: Result<ActionParam, ParseError>,
    expected: Parsed<ParamView>,
) -> bool {
    &&& after.views() == before.views()
    &&& match expected {
        Ok((value, end)) => r is Ok && r->Ok_0@ == value && after.position() == end,
        Err(e) => r is Err && r->Err_0 == e,
    }
}

/// Whether `r` and the cursor after the call are what `expected` says of a
/// parser of parameter lists.
pub open spec fn reads_params(
    before: LexedTokens,
    after: LexedTokens,
    r: Result<Vec<ActionParam>, ParseError>,
    expected: Parsed<Seq<ParamView>>,
) -> bool {
    &&& after.views() == before.views()
    &&& match expected {
        Ok((values, end)) => r is Ok && params_view(r->Ok_0@) == values && after.position() == end,
        Err(e) => r is Err && r->Err_0 == e,
    }
}

impl LexedTokens {
    fn is_symbol(&self, at: usize, c: char) -> (r: bool)
        ensures
            r == (at < self.views().len() && self.views()[at as int] == TokenView::Symbol(c)),
    {
        if at < self.tokens.len() {
            match &self.tokens[at] {
                Token::Symbol(s) => *s == c,
                _ => false,
            }
        } else {
            false
        }
    }

    fn is_param(&self, at: usize, c: char) -> (r: bool)
        ensures
            r == (at < self.views().len() && self.views()[at as int] == TokenView::Param(c)),
    {
        if at < self.tokens.len() {
            match &self.tokens[at] {
                Token::Param(s) => *s == c,
                _ => false,
            }
        } else {
            false
        }
    }

    fn integer_at(&self, at: usize) -> (r: Option<&Number>)
        ensures
            match r {
                Some(n) => at < self.views().len() && self.views()[at as int] == TokenView::Number(
                    n@,
                ) && is_integer_literal(n@),
                None => !(at < self.views().len() && self.views()[at as int] is Number
                    && is_integer_literal(self.views()[at as int]->Number_0)),
            },
    {
        if at < self.tokens.len() {
            match &self.tokens[at] {
                Token::Number(n) => if n.is_integer() {
                    Some(n)
                } else {
                    None
                },
                _ => None,
            }
        } else {
            None
        }
    }

    fn operator(&self, at: usize) -> (r: Option<(BinOpKind, usize)>)
        ensures
            match r {
                Some((op, behind)) => operator_at(self.views(), at as int) == Some(
                    (op, behind as int),
                ) && at < behind <= self.views().len(),
                None => operator_at(self.views(), at as int) is None,
            },
    {
        if at >= self.tokens.len() {
            return None;
        }
        let equals = self.tokens.len() - at > 1 && self.is_symbol(at + 1, '=');
        let c = match &self.tokens[at] {
            Token::Symbol(c) => *c,
            _ => {
                return None;
            },
        };
        let op = if c == '+' {
            BinOpKind::Add
        } else if c == '-' {
            BinOpKind::Sub
        } else if c == '*' {
            BinOpKind::Mul
        } else if c == '/' {
            BinOpKind::Div
        } else if c == '%' {
            BinOpKind::Rem
        } else if c == '^' {
            BinOpKind::BitXor
        } else if c == '&' {
            BinOpKind::BitAnd
        } else if c == '|' {
            BinOpKind::BitOr
        } else if c == '<' {
            if equals {
                BinOpKind::Le
            } else {
                BinOpKind::Lt
            }
        } else if c == '>' {
            if equals {
                BinOpKind::Ge
            } else {
                BinOpKind::Gt
            }
        } else if c == '!' && equals {
            BinOpKind::Ne
        } else {
            return None;
        };
        match op {
            BinOpKind::Le | BinOpKind::Ge | BinOpKind::Ne => Some((op, at + 2)),
            _ => Some((op, at + 1)),
        }
    }
}

fn parse_operand(tokens: &mut LexedTokens) -> (r: Result<ActionParam, ParseError>)
    ensures
        reads_param(
            *old(tokens),
            *final(tokens),
            r,
            operand_at(old(tokens).views(), old(tokens).position()),
        ),
    decreases old(tokens).views().len() - old(tokens).position(), 0nat,
{
    let at = tokens.index;
    if at >= tokens.tokens.len() {
        return Err(ParseError { kind: ParseErrorKind::ExpectedParameter, at });
    }
    let token = tokens.tokens[at].clone();
    match token {
        Token::Number(n) => {
            if tokens.tokens.len() - at > 2 && tokens.is_symbol(at + 1, '.') {
                let fraction = match (tokens.integer_at(at), tokens.integer_at(at + 2)) {
                    (Some(whole), Some(fraction)) => Number::with_fraction(whole, fraction),
                    _ => None,
                };
                match fraction {
                    Some(value) => {
                        tokens.index = at + 3;
                        return Ok(ActionParam::Number(value));
                    },
                    None => {},
                }
            }
            tokens.index = at + 1;
            Ok(ActionParam::Number(n))
        },
        Token::Ident(name) => {
            tokens.index = at + 1;
            Ok(ActionParam::Constant(name))
        },
        Token::Param(c) => {
            if c != '(' {
                return Err(ParseError { kind: ParseErrorKind::ExpectedParameter, at });
            }
            tokens.index = at + 1;
            let value = parse_parameter(tokens)?;
            let end = tokens.index;
            if tokens.is_param(end, ')') {
                proof {
                    lemma_parameter_advances(old(tokens).views(), at + 1);
                }
                tokens.index = end + 1;
                Ok(value)
            } else {
                Err(ParseError { kind: ParseErrorKind::ExpectedClosingParam, at: end })
            }
        },
        _ => Err(ParseError { kind: ParseErrorKind::ExpectedParameter, at }),
    }
}

fn parse_folded(tokens: &mut LexedTokens, left: ActionParam) -> (r: Result<ActionParam, ParseError>)
    requires
        0 <= old(tokens).position() <= old(tokens).views().len(),
    ensures
        reads_param(
            *old(tokens),
            *final(tokens),
            r,
            folded_at(old(tokens).views(), old(tokens).position(), left@),
        ),
    decreases old(tokens).views().len() - old(tokens).position(), 0nat,
{
    let at = tokens.index;
    match tokens.operator(at) {
        Some((op, behind)) => {
            proof {
                lemma_parameter_advances(old(tokens).views(), behind as int);
            }
            tokens.index = behind;
            let right = parse_operand(tokens)?;
            let joined = ActionParam::Expression(ExprKind::Binary(op, P::new(left), P::new(right)));
            parse_folded(tokens, joined)
        },
        None => Ok(left),
    }
}

fn parse_parameter(tokens: &mut LexedTokens) -> (r: Result<ActionParam, ParseError>)
    ensures
        reads_param(
            *old(tokens),
            *final(tokens),
            r,
            parameter_at(old(tokens).views(), old(tokens).position()),
        ),
    decreases old(tokens).views().len() - old(tokens).position(), 1nat,
{
    proof {
        lemma_parameter_advances(old(tokens).views(), old(tokens).position());
    }
    let first = parse_operand(tokens)?;
    parse_folded(tokens, first)
}

/// Reads on in one parameter, up to and with the comma or the `)` that ends
/// it: a whole parameter where `prev_parsed` is empty, else the operators
/// and operands that follow `prev_parsed`, folded onto it from left to
/// right. It fails where no token is left to read.
pub fn parse_parameters(tokens: &mut LexedTokens, prev_parsed: &ActionParam) -> (r: Result<
    ActionParam,
    ParseError,
>)
    ensures
        reads_param(
            *old(tokens),
            *final(tokens),
            r,
            continued_at(old(tokens).views(), old(tokens).position(), prev_parsed@),
        ),
{
    let at = tokens.index;
    if at >= tokens.tokens.len() {
        return Err(ParseError { kind: ParseErrorKind::ExpectedParameter, at });
    }
    let value = match prev_parsed {
        ActionParam::Empty => parse_parameter(tokens)?,
        _ => parse_folded(tokens, prev_parsed.clone())?,
    };
    let end = tokens.index;
    if end >= tokens.tokens.len() {
        return Err(ParseError { kind: ParseErrorKind::ExpectedClosingParam, at: end });
    }
    if tokens.is_symbol(end, ',') || tokens.is_param(end, ')') {
        tokens.index = end + 1;
        Ok(value)
    } else {
        match &tokens.tokens[end] {
            Token::Symbol(_) => Err(ParseError { kind: ParseErrorKind::UnexpectedSymbol, at: end }),
            _ => Err(ParseError { kind: ParseErrorKind::ExpectedClosingParam, at: end }),
        }
    }
}

/// Reads a parameter list: `(`, the parameters with commas between them,
/// and `)`. The cursor stops behind the `)`.
pub fn parse_module_parameters(tokens: &mut LexedTokens) -> (r: Result<Vec<ActionParam>, ParseError>)
    ensures
        reads_params(
            *old(tokens),
            *final(tokens),
            r,
            parameter_list_at(old(tokens).views(), old(tokens).position()),
        ),
{
    let start = tokens.index;
    if !tokens.is_param(start, '(') {
        return Err(ParseError { kind: ParseErrorKind::ExpectedOpeningParam, at: start });
    }
    let mut params: Vec<ActionParam> = Vec::new();
    if tokens.tokens.len() - start > 1 && tokens.is_param(start + 1, ')') {
        tokens.index = start + 2;
        assert(params_view(params@) =~= Seq::<ParamView>::empty());
        return Ok(params);
    }
    tokens.index = start + 1;
    let ghost ts = old(tokens).views();
    assert(params_view(params@) =~= Seq::<ParamView>::empty());
    loop
        invariant
            ts == old(tokens).views(),
            start == old(tokens).position(),
            tokens.views() == ts,
            0 <= tokens.position() <= ts.len(),
            parameter_list_at(ts, start as int) == parameters_from(
                ts,
                tokens.position(),
                params_view(params@),
            ),
        decreases ts.len() - tokens.position(),
    {
        let ghost from = tokens.position();
        let ghost read = params_view(params@);
        proof {
            lemma_parameter_advances(ts, from);
        }
        let value = parse_parameter(tokens)?;
        params.push(value);
        assert(params_view(params@) =~= read.push(value@));
        let end = tokens.index;
        if end >= tokens.tokens.len() {
            return Err(ParseError { kind: ParseErrorKind::ExpectedClosingParam, at: end });
        }
        if tokens.is_symbol(end, ',') {
            tokens.index = end + 1;
        } else if tokens.is_param(end, ')') {
            tokens.index = end + 1;
            return Ok(params);
        } else {
            match &tokens.tokens[end] {
                Token::Symbol(_) => {
                    return Err(ParseError { kind: ParseErrorKind::UnexpectedSymbol, at: end });
                },
                _ => {
                    return Err(
                        ParseError { kind: ParseErrorKind::ExpectedClosingParam, at: end },
                    );
                },
            }
        }
    }
}

/// Whether the identifier `word` stands at `pos`.
pub open spec fn keyword_at(ts: Seq<TokenView>, pos: int, word: Seq<char>) -> bool {
    0 <= pos < ts.len() && ts[pos] == TokenView::Ident(word)
}

/// The symbols and identifiers from `pos` to the next `;`, written one
/// after the other behind `read`. It stops on the `;`.
pub open spec fn symbol_run_at(ts: Seq<TokenView>, pos: int, read: Seq<char>) -> Parsed<Seq<char>>
    decreases ts.len() - pos,
{
    if pos < 0 || pos >= ts.len() {
        fail(ParseErrorKind::ExpectedBreak, pos)
    } else {
        match ts[pos] {
            TokenView::Symbol(c) => symbol_run_at(ts, pos + 1, read.push(c)),
            TokenView::Ident(name) => symbol_run_at(ts, pos + 1, read + name),
            TokenView::Break => Ok((read, pos)),
            _ => fail(ParseErrorKind::ExpectedSymbol, pos),
        }
    }
}

/// The identifiers from `pos` to the keyword `by`, written one after the
/// other behind `read`. It stops behind `by`.
pub open spec fn predecessor_at(ts: Seq<TokenView>, pos: int, read: Seq<char>) -> Parsed<Seq<char>>
    decreases ts.len() - pos,
{
    if pos < 0 || pos >= ts.len() {
        fail(ParseErrorKind::ExpectedBy, pos)
    } else {
        match ts[pos] {
            TokenView::Ident(name) => if name == "by"@ {
                Ok((read, pos + 1))
            } else {
                predecessor_at(ts, pos + 1, read + name)
            },
            _ => fail(ParseErrorKind::ExpectedBy, pos),
        }
    }
}

/// The tokens from `pos` to the next `;`, written one after the other
/// behind `read`. It stops on the `;`.
pub open spec fn successor_at(ts: Seq<TokenView>, pos: int, read: Seq<char>) -> Parsed<Seq<char>>
    decreases ts.len() - pos,
{
    if pos < 0 || pos >= ts.len() {
        fail(ParseErrorKind::ExpectedBreak, pos)
    } else if ts[pos] is Break {
        Ok((read, pos))
    } else {
        successor_at(ts, pos + 1, read + token_text(ts[pos]))
    }
}

/// The symbols and identifiers from `pos` to the keyword `as`, behind
/// those in `read`. It stops behind `as`.
pub open spec fn triggers_at(ts: Seq<TokenView>, pos: int, read: Seq<Seq<char>>) -> Parsed<
    Seq<Seq<char>>,
>
    decreases ts.len() - pos,
{
    if pos < 0 || pos >= ts.len() {
        fail(ParseErrorKind::ExpectedAs, pos)
    } else {
        match ts[pos] {
            TokenView::Symbol(c) => triggers_at(ts, pos + 1, read.push(seq![c])),
            TokenView::Ident(name) => if name == "as"@ {
                Ok((read, pos + 1))
            } else {
                triggers_at(ts, pos + 1, read.push(name))
            },
            _ => fail(ParseErrorKind::ExpectedAs, pos),
        }
    }
}

/// The position of the next `;` from `pos` on.
pub open spec fn break_from(ts: Seq<TokenView>, pos: int) -> Parsed<()>
    decreases ts.len() - pos,
{
    if pos < 0 || pos >= ts.len() {
        fail(ParseErrorKind::ExpectedBreak, pos)
    } else if ts[pos] is Break {
        Ok(((), pos))
    } else {
        break_from(ts, pos + 1)
    }
}

/// The statement behind the keyword `axiom` at `pos`. It stops on the `;`.
pub open spec fn axiom_at(ts: Seq<TokenView>, pos: int) -> Parsed<StatementView> {
    match symbol_run_at(ts, pos + 1, Seq::empty()) {
        Ok((text, end)) => Ok((StatementView::Axiom(text), end)),
        Err(e) => Err(e),
    }
}

/// The statement behind the keyword `replace` at `pos`. It stops on the `;`.
pub open spec fn replace_at(ts: Seq<TokenView>, pos: int) -> Parsed<StatementView> {
    match predecessor_at(ts, pos + 1, Seq::empty()) {
        Ok((from, middle)) => match successor_at(ts, middle, Seq::empty()) {
            Ok((to, end)) => Ok((StatementView::Replace(from, to), end)),
            Err(e) => Err(e),
        },
        Err(e) => Err(e),
    }
}

/// The statement behind the keyword `interpret` at `pos`: the one trigger,
/// `as`, the name of the action and its parameter list. It stops behind the
/// list.
pub open spec fn interpret_at(ts: Seq<TokenView>, pos: int) -> Parsed<StatementView> {
    match triggers_at(ts, pos + 1, Seq::empty()) {
        Ok((triggers, at_name)) => if at_name < ts.len() && ts[at_name] is Ident {
            match parameter_list_at(ts, at_name + 1) {
                Ok((params, end)) => if triggers.len() == 1 {
                    Ok(
                        (
                            StatementView::Interpret(
                                triggers[0],
                                ActionView { name: ts[at_name]->Ident_0, params },
                            ),
                            end,
                        ),
                    )
                } else {
                    fail(ParseErrorKind::ExpectedOneTrigger, pos + 1)
                },
                Err(e) => Err(e),
            }
        } else {
            fail(ParseErrorKind::ExpectedActionName, at_name)
        },
        Err(e) => Err(e),
    }
}

/// The statement behind the keyword `let` at `pos`: it holds nothing of
/// what stands before the `;`. It stops on the `;`.
pub open spec fn let_at(ts: Seq<TokenView>, pos: int) -> Parsed<StatementView> {
    match break_from(ts, pos + 1) {
        Ok((_, end)) => Ok((StatementView::DefineVariable, end)),
        Err(e) => Err(e),
    }
}

/// The statement at `pos`, up to where its own rule stops.
pub open spec fn statement_body_at(ts: Seq<TokenView>, pos: int) -> Parsed<StatementView> {
    if keyword_at(ts, pos, "replace"@) {
        replace_at(ts, pos)
    } else if keyword_at(ts, pos, "interpret"@) {
        interpret_at(ts, pos)
    } else if keyword_at(ts, pos, "let"@) {
        let_at(ts, pos)
    } else if keyword_at(ts, pos, "axiom"@) {
        axiom_at(ts, pos)
    } else {
        fail(ParseErrorKind::ExpectedStatement, pos)
    }
}

/// The statement at `pos` with the `;` that closes it. It stops behind the
/// `;`.
pub open spec fn statement_at(ts: Seq<TokenView>, pos: int) -> Parsed<StatementView> {
    match statement_body_at(ts, pos) {
        Ok((statement, end)) => if 0 <= end < ts.len() && ts[end] is Break {
            Ok((statement, end + 1))
        } else {
            fail(ParseErrorKind::ExpectedBreak, end)
        },
        Err(e) => Err(e),
    }
}

/// The statements from `pos` to the `}` that closes the L-system, behind
/// those in `read`.
pub open spec fn statements_from(ts: Seq<TokenView>, pos: int, read: Seq<StatementView>) -> Parsed<
    Seq<StatementView>,
>
    decreases ts.len() - pos,
{
    if pos < 0 || pos >= ts.len() {
        fail(ParseErrorKind::ExpectedClosingBrace, pos)
    } else if ts[pos] == TokenView::Parentesis('}') {
        Ok((read, pos + 1))
    } else {
        match statement_at(ts, pos) {
            Ok((statement, end)) => if pos < end <= ts.len() {
                statements_from(ts, end, read.push(statement))
            } else {
                fail(ParseErrorKind::ExpectedStatement, pos)
            },
            Err(e) => Err(e),
        }
    }
}

/// The L-system behind its name at `pos`: `{`, its statements and `}`.
pub open spec fn lsystem_at(ts: Seq<TokenView>, pos: int) -> Parsed<ItemView> {
    if !(0 <= pos < ts.len() && ts[pos] is Ident) {
        fail(ParseErrorKind::ExpectedLSystemName, pos)
    } else if !(pos + 1 < ts.len() && ts[pos + 1] == TokenView::Parentesis('{')) {
        fail(ParseErrorKind::ExpectedOpeningBrace, pos + 1)
    } else {
        match statements_from(ts, pos + 2, Seq::empty()) {
            Ok((statements, end)) => Ok((ItemView { name: ts[pos]->Ident_0, statements }, end)),
            Err(e) => Err(e),
        }
    }
}

/// The item at `pos`: the keyword `lsystem` and an L-system.
pub open spec fn item_at(ts: Seq<TokenView>, pos: int) -> Parsed<ItemView> {
    if keyword_at(ts, pos, "lsystem"@) {
        lsystem_at(ts, pos + 1)
    } else {
        fail(ParseErrorKind::ExpectedLSystemKeyword, pos)
    }
}

/// The views of a sequence of strings.
pub open spec fn strings_view(strings: Seq<String>) -> Seq<Seq<char>> {
    Seq::new(strings.len(), |i: int| strings[i]@)
}

/// Whether `r` and the cursor after the call are what `expected` says of a
/// parser of statements.
pub open spec fn reads_statement(
    before: LexedTokens,
    after: LexedTokens,
    r: Result<StatementKind, ParseError>,
    expected: Parsed<StatementView>,
) -> bool {
    &&& after.views() == before.views()
    &&& match expected {
        Ok((value, end)) => r is Ok && r->Ok_0@ == value && after.position() == end,
        Err(e) => r is Err && r->Err_0 == e,
    }
}

impl LexedTokens {
    fn is_break(&self, at: usize) -> (r: bool)
        ensures
            r == (at < self.views().len() && self.views()[at as int] is Break),
    {
        if at < self.tokens.len() {
            match &self.tokens[at] {
                Token::Break => true,
                _ => false,
            }
        } else {
            false
        }
    }

    fn is_brace(&self, at: usize, c: char) -> (r: bool)
        ensures
            r == (at < self.views().len() && self.views()[at as int] == TokenView::Parentesis(c)),
    {
        if at < self.tokens.len() {
            match &self.tokens[at] {
                Token::Parentesis(s) => *s == c,
                _ => false,
            }
        } else {
            false
        }
    }

    fn is_keyword(&self, at: usize, word: &str) -> (r: bool)
        ensures
            r == keyword_at(self.views(), at as int, word@),
    {
        if at < self.tokens.len() {
            match &self.tokens[at] {
                Token::Ident(name) => same_text(name.as_str(), word),
                _ => false,
            }
        } else {
            false
        }
    }
}

fn parse_axiom(tokens: &mut LexedTokens) -> (r: Result<StatementKind, ParseError>)
    requires
        old(tokens).position() < old(tokens).views().len(),
    ensures
        reads_statement(
            *old(tokens),
            *final(tokens),
            r,
            axiom_at(old(tokens).views(), old(tokens).position()),
        ),
{
    let count = tokens.tokens.len();
    let ghost ts = tokens.views();
    let ghost start = tokens.position();
    let mut at: usize = tokens.index + 1;
    let mut symbols = String::new();
    while at < count
        invariant
            ts == tokens.views(),
            count == ts.len(),
            0 <= at <= count,
            symbol_run_at(ts, start + 1, Seq::empty()) == symbol_run_at(ts, at as int, symbols@),
            *tokens == *old(tokens),
            start == old(tokens).position(),
        decreases count - at,
    {
        match &tokens.tokens[at] {
            Token::Symbol(symbol) => {
                symbols.push(*symbol);
            },
            Token::Ident(symbol) => {
                symbols.append(symbol.as_str());
            },
            Token::Break => {
                tokens.index = at;
                return Ok(StatementKind::Axiom(symbols));
            },
            _ => {
                return Err(ParseError { kind: ParseErrorKind::ExpectedSymbol, at });
            },
        }
        at += 1;
    }
    Err(ParseError { kind: ParseErrorKind::ExpectedBreak, at })
}

fn parse_replace(tokens: &mut LexedTokens) -> (r: Result<StatementKind, ParseError>)
    requires
        old(tokens).position() < old(tokens).views().len(),
    ensures
        reads_statement(
            *old(tokens),
            *final(tokens),
            r,
            replace_at(old(tokens).views(), old(tokens).position()),
        ),
{
    let count = tokens.tokens.len();
    let ghost ts = tokens.views();
    let ghost start = tokens.position();
    let mut at: usize = tokens.index + 1;
    let mut from = String::new();
    loop
        invariant_except_break
            predecessor_at(ts, start + 1, Seq::empty()) == predecessor_at(ts, at as int, from@),
        invariant
            ts == tokens.views(),
            count == ts.len(),
            0 <= at <= count,
            *tokens == *old(tokens),
            start == old(tokens).position(),
        ensures
            predecessor_at(ts, start + 1, Seq::empty()) == Ok::<(Seq<char>, int), ParseError>(
                (from@, at as int),
            ),
        decreases count - at,
    {
        if at >= count {
            return Err(ParseError { kind: ParseErrorKind::ExpectedBy, at });
        }
        match &tokens.tokens[at] {
            Token::Ident(ident) => {
                if same_text(ident.as_str(), "by") {
                    at += 1;
                    break ;
                }
                from.append(ident.as_str());
            },
            _ => {
                return Err(ParseError { kind: ParseErrorKind::ExpectedBy, at });
            },
        }
        at += 1;
    }
    let ghost middle = at as int;
    let mut to = String::new();
    while at < count
        invariant
            ts == tokens.views(),
            count == ts.len(),
            0 <= at <= count,
            successor_at(ts, middle, Seq::empty()) == successor_at(ts, at as int, to@),
            predecessor_at(ts, start + 1, Seq::empty()) == Ok::<(Seq<char>, int), ParseError>(
                (from@, middle),
            ),
            *tokens == *old(tokens),
            start == old(tokens).position(),
        decreases count - at,
    {
        if tokens.is_break(at) {
            tokens.index = at;
            return Ok(StatementKind::Replace(from, to));
        }
        let text = tokens.tokens[at].to_string();
        to.append(text.as_str());
        at += 1;
    }
    Err(ParseError { kind: ParseErrorKind::ExpectedBreak, at })
}

fn parse_let_statement(tokens: &mut LexedTokens) -> (r: Result<StatementKind, ParseError>)
    requires
        old(tokens).position() < old(tokens).views().len(),
    ensures
        reads_statement(
            *old(tokens),
            *final(tokens),
            r,
            let_at(old(tokens).views(), old(tokens).position()),
        ),
{
    let count = tokens.tokens.len();
    let ghost ts = tokens.views();
    let ghost start = tokens.position();
    let mut at: usize = tokens.index + 1;
    while at < count
        invariant
            ts == tokens.views(),
            count == ts.len(),
            0 <= at <= count,
            break_from(ts, start + 1) == break_from(ts, at as int),
            *tokens == *old(tokens),
            start == old(tokens).position(),
        decreases count - at,
    {
        if tokens.is_break(at) {
            tokens.index = at;
            return Ok(StatementKind::DefineVariable);
        }
        at += 1;
    }
    Err(ParseError { kind: ParseErrorKind::ExpectedBreak, at })
}

fn parse_interpret(tokens: &mut LexedTokens) -> (r: Result<StatementKind, ParseError>)
    requires
        old(tokens).position() < old(tokens).views().len(),
    ensures
        reads_statement(
            *old(tokens),
            *final(tokens),
            r,
            interpret_at(old(tokens).views(), old(tokens).position()),
        ),
{
    let count = tokens.tokens.len();
    let ghost ts = tokens.views();
    let ghost start = tokens.position();
    let first = tokens.index + 1;
    let mut at: usize = first;
    let mut action_tokens: Vec<String> = Vec::new();
    assert(strings_view(action_tokens@) =~= Seq::<Seq<char>>::empty());
    loop
        invariant_except_break
            triggers_at(ts, start + 1, Seq::empty()) == triggers_at(
                ts,
                at as int,
                strings_view(action_tokens@),
            ),
        invariant
            ts == tokens.views(),
            count == ts.len(),
            0 <= at <= count,
            *tokens == *old(tokens),
            start == old(tokens).position(),
        ensures
            triggers_at(ts, start + 1, Seq::empty()) == Ok::<(Seq<Seq<char>>, int), ParseError>(
                (strings_view(action_tokens@), at as int),
            ),
        decreases count - at,
    {
        if at >= count {
            return Err(ParseError { kind: ParseErrorKind::ExpectedAs, at });
        }
        let ghost read = strings_view(action_tokens@);
        match &tokens.tokens[at] {
            Token::Symbol(symbol) => {
                let mut text = String::new();
                text.push(*symbol);
                assert(text@ =~= seq![*symbol]);
                action_tokens.push(text);
                assert(strings_view(action_tokens@) =~= read.push(seq![*symbol]));
            },
            Token::Ident(string) => {
                if same_text(string.as_str(), "as") {
                    at += 1;
                    break ;
                }
                action_tokens.push(string.clone());
                assert(strings_view(action_tokens@) =~= read.push(string@));
            },
            _ => {
                return Err(ParseError { kind: ParseErrorKind::ExpectedAs, at });
            },
        }
        at += 1;
    }
    let action_name = if at < count {
        match &tokens.tokens[at] {
            Token::Ident(name) => Some(name.clone()),
            _ => None,
        }
    } else {
        None
    };
    let action_name = match action_name {
        Some(name) => name,
        None => {
            return Err(ParseError { kind: ParseErrorKind::ExpectedActionName, at });
        },
    };
    tokens.index = at + 1;
    let params = parse_module_parameters(tokens)?;
    if action_tokens.len() != 1 {
        return Err(ParseError { kind: ParseErrorKind::ExpectedOneTrigger, at: first });
    }
    let trigger = action_tokens[0].clone();
    Ok(StatementKind::Interpret(trigger, Action::new(action_name, params)))
}

fn parse_statement(tokens: &mut LexedTokens) -> (r: Result<StatementKind, ParseError>)
    ensures
        reads_statement(
            *old(tokens),
            *final(tokens),
            r,
            statement_at(old(tokens).views(), old(tokens).position()),
        ),
{
    let at = tokens.index;
    let statement = if tokens.is_keyword(at, "replace") {
        parse_replace(tokens)?
    } else if tokens.is_keyword(at, "interpret") {
        parse_interpret(tokens)?
    } else if tokens.is_keyword(at, "let") {
        parse_let_statement(tokens)?
    } else if tokens.is_keyword(at, "axiom") {
        parse_axiom(tokens)?
    } else {
        return Err(ParseError { kind: ParseErrorKind::ExpectedStatement, at });
    };
    let end = tokens.index;
    if tokens.is_break(end) {
        proof {
            lemma_vec_fits(&tokens.tokens);
        }
        tokens.index = end + 1;
        Ok(statement)
    } else {
        Err(ParseError { kind: ParseErrorKind::ExpectedBreak, at: end })
    }
}

fn parse_lsystem(tokens: LexedTokens) -> (r: Result<ItemKind, ParseError>)
    ensures
        match lsystem_at(tokens.views(), tokens.position()) {
            Ok((item, _)) => r is Ok && r->Ok_0@ == item,
            Err(e) => r is Err && r->Err_0 == e,
        },
{
    let mut cursor = tokens;
    let ghost ts = cursor.views();
    let at = cursor.index;
    let count = cursor.tokens.len();
    let l_system_name = if at < count {
        match &cursor.tokens[at] {
            Token::Ident(name) => Some(name.clone()),
            _ => None,
        }
    } else {
        None
    };
    let l_system_name = match l_system_name {
        Some(name) => name,
        None => {
            return Err(ParseError { kind: ParseErrorKind::ExpectedLSystemName, at });
        },
    };
    if !cursor.is_brace(at + 1, '{') {
        return Err(ParseError { kind: ParseErrorKind::ExpectedOpeningBrace, at: at + 1 });
    }
    cursor.index = at + 2;
    let mut statements: Vec<StatementKind> = Vec::new();
    assert(statements_view(statements@) =~= Seq::<StatementView>::empty());
    loop
        invariant
            ts == tokens.views(),
            at == tokens.position(),
            ts == cursor.views(),
            count == ts.len(),
            0 <= cursor.position(),
            statements_from(ts, at + 2, Seq::empty()) == statements_from(
                ts,
                cursor.position(),
                statements_view(statements@),
            ),
            lsystem_at(ts, at as int) == match statements_from(ts, at + 2, Seq::empty()) {
                Ok((all, end)) => Ok::<(ItemView, int), ParseError>(
                    (ItemView { name: l_system_name@, statements: all }, end),
                ),
                Err(e) => Err(e),
            },
        decreases ts.len() - cursor.position(),
    {
        let here = cursor.index;
        if here >= count {
            return Err(ParseError { kind: ParseErrorKind::ExpectedClosingBrace, at: here });
        }
        if cursor.is_brace(here, '}') {
            return Ok(ItemKind::LSystem(l_system_name, statements));
        }
        let ghost read = statements_view(statements@);
        let statement = parse_statement(&mut cursor)?;
        statements.push(statement);
        assert(statements_view(statements@) =~= read.push(statement@));
        if cursor.index <= here || cursor.index > count {
            return Err(ParseError { kind: ParseErrorKind::ExpectedStatement, at: here });
        }
    }
}

/// Parses a script: the keyword `lsystem`, the name of the L-system, and its
/// statements between `{` and `}`. What follows the `}` is not read.
pub fn parse(tokens: LexedTokens) -> (r: Result<Item, ParseError>)
    ensures
        match item_at(tokens.views(), tokens.position()) {
            Ok((item, _)) => r is Ok && r->Ok_0@ == item,
            Err(e) => r is Err && r->Err_0 == e,
        },
{
    let mut cursor = tokens;
    let at = cursor.index;
    if cursor.is_keyword(at, "lsystem") {
        proof {
            lemma_vec_fits(&cursor.tokens);
        }
        cursor.index = at + 1;
        let item_kind = parse_lsystem(cursor)?;
        Ok(Item { item_kind })
    } else {
        Err(ParseError { kind: ParseErrorKind::ExpectedLSystemKeyword, at })
    }
}

/// The initial string that the statements from `from` on give: that of the
/// first statement that gives one.
pub open spec fn first_start(statements: Seq<StatementView>, from: int) -> Option<Seq<char>>
    decreases statements.len() - from,
{
    if from < 0 || from >= statements.len() {
        None
    } else {
        match statements[from] {
            StatementView::Axiom(start) => Some(start),
            _ => first_start(statements, from + 1),
        }
    }
}

/// The plain rules after the replacements among `statements` were added
/// to `base`, in the order of the statements.
pub open spec fn replacements_of(
    base: Map<Seq<char>, (Seq<char>, Seq<char>)>,
    statements: Seq<StatementView>,
) -> Map<Seq<char>, (Seq<char>, Seq<char>)>
    decreases statements.len(),
{
    if statements.len() == 0 {
        base
    } else {
        let before = replacements_of(base, statements.drop_last());
        match statements.last() {
            StatementView::Replace(from, to) => before.insert(from, (from, to)),
            _ => before,
        }
    }
}

/// The bindings of symbols to actions among `statements`, in the order of
/// the statements.
pub open spec fn interprets_of(statements: Seq<StatementView>) -> Seq<(Seq<char>, ActionView)>
    decreases statements.len(),
{
    if statements.len() == 0 {
        Seq::empty()
    } else {
        let before = interprets_of(statements.drop_last());
        match statements.last() {
            StatementView::Interpret(trigger, action) => before.push((trigger, action)),
            _ => before,
        }
    }
}

/// Turns a parsed script into an L-system.
pub struct LSystemParser {
    item: Item,
}

impl LSystemParser {
    /// The script.
    pub closed spec fn script(&self) -> ItemView {
        self.item@
    }

    /// A parser for the script `item`.
    pub fn new(item: Item) -> (r: Self)
        ensures
            r.script() == item@,
    {
        LSystemParser { item }
    }

    /// The name of the L-system.
    pub fn lsystem_name(&self) -> (r: String)
        ensures
            r@ == self.script().name,
    {
        match &self.item.item_kind {
            ItemKind::LSystem(name, _) => name.clone(),
        }
    }

    /// The initial string: that of the first statement that gives one.
    /// `None` where no statement does.
    pub fn axiom_text(&self) -> (r: Option<String>)
        ensures
            match r {
                Some(start) => first_start(self.script().statements, 0) == Some(start@),
                None => first_start(self.script().statements, 0) is None,
            },
    {
        match &self.item.item_kind {
            ItemKind::LSystem(_, statements) => {
                let mut i: usize = 0;
                while i < statements.len()
                    invariant
                        i <= statements@.len(),
                        self.script().statements == statements_view(statements@),
                        first_start(self.script().statements, 0) == first_start(
                            self.script().statements,
                            i as int,
                        ),
                    decreases statements@.len() - i,
                {
                    assert(self.script().statements[i as int] == statements@[i as int]@);
                    if let StatementKind::Axiom(start) = &statements[i] {
                        return Some(start.clone());
                    }
                    i += 1;
                }
                None
            },
        }
    }

    /// Adds the replacements of the script to `lsystem`, in the order of
    /// the statements.
    pub fn replacement_rules<
        A: SymbolDefiner,
        C: ?Sized + ContextSensitiveRuleCB,
        M: ?Sized + ParametricRuleCB,
    >(&self, lsystem: &mut LSystem<A, C, M>)
        ensures
            final(lsystem).rule_texts() == replacements_of(
                old(lsystem).rule_texts(),
                self.script().statements,
            ),
            final(lsystem).context_rules() == old(lsystem).context_rules(),
            final(lsystem).module_rules() == old(lsystem).module_rules(),
            final(lsystem).start() == old(lsystem).start(),
            final(lsystem).definer() == old(lsystem).definer(),
            final(lsystem).name_text() == old(lsystem).name_text(),
            final(lsystem).actions() == old(lsystem).actions(),
    {
        match &self.item.item_kind {
            ItemKind::LSystem(_, statements) => {
                let ghost all = self.script().statements;
                let mut i: usize = 0;
                while i < statements.len()
                    invariant
                        i <= statements@.len(),
                        all == statements_view(statements@),
                        lsystem.rule_texts() == replacements_of(
                            old(lsystem).rule_texts(),
                            all.take(i as int),
                        ),
                        lsystem.context_rules() == old(lsystem).context_rules(),
                        lsystem.module_rules() == old(lsystem).module_rules(),
                        lsystem.start() == old(lsystem).start(),
                        lsystem.definer() == old(lsystem).definer(),
                        lsystem.name_text() == old(lsystem).name_text(),
                        lsystem.actions() == old(lsystem).actions(),
                    decreases statements@.len() - i,
                {
                    proof {
                        assert(all.take(i + 1).drop_last() =~= all.take(i as int));
                        assert(all.take(i + 1).last() == statements@[i as int]@);
                    }
                    if let StatementKind::Replace(replace, by) = &statements[i] {
                        lsystem.add_rule(replace.as_str(), by.as_str());
                    }
                    i += 1;
                }
                assert(all.take(statements@.len() as int) =~= all);
            },
        }
    }

    /// The bindings of symbols to actions in the script, in the order of
    /// the statements.
    pub fn interpret_rules(&self) -> (r: Vec<(String, Action)>)
        ensures
            bindings_view(r@) == interprets_of(self.script().statements),
    {
        match &self.item.item_kind {
            ItemKind::LSystem(_, statements) => {
                let ghost all = self.script().statements;
                let mut interprets: Vec<(String, Action)> = Vec::new();
                let mut i: usize = 0;
                assert(bindings_view(interprets@) =~= Seq::<(Seq<char>, ActionView)>::empty());
                while i < statements.len()
                    invariant
                        i <= statements@.len(),
                        all == statements_view(statements@),
                        bindings_view(interprets@) == interprets_of(all.take(i as int)),
                    decreases statements@.len() - i,
                {
                    let ghost before = bindings_view(interprets@);
                    proof {
                        assert(all.take(i + 1).drop_last() =~= all.take(i as int));
                        assert(all.take(i + 1).last() == statements@[i as int]@);
                    }
                    if let StatementKind::Interpret(interpret, by) = &statements[i] {
                        interprets.push((interpret.clone(), by.clone()));
                        assert(bindings_view(interprets@) =~= before.push((interpret@, by@)));
                    }
                    i += 1;
                }
                assert(all.take(statements@.len() as int) =~= all);
                interprets
            },
        }
    }

    /// The L-system that the script `item` describes, over the usual
    /// alphabet: its name, its initial string, its replacements as plain
    /// rules and its bindings of symbols to actions. `None` where the
    /// script gives no initial string.
    pub fn parse(item: Item) -> (r: Option<LSystem<DefaultAlphabetSymbolDefiner>>)
        ensures
            match r {
                Some(lsystem) => {
                    &&& first_start(item@.statements, 0) == Some(lsystem.start())
                    &&& lsystem.name_text() == item@.name
                    &&& lsystem.actions() == interprets_of(item@.statements)
                    &&& lsystem.rule_texts() == replacements_of(Map::empty(), item@.statements)
                    &&& lsystem.context_rules().dom() == Set::<Seq<char>>::empty()
                    &&& lsystem.module_rules().dom() == Set::<Seq<char>>::empty()
                },
                None => first_start(item@.statements, 0) is None,
            },
    {
        let builder = LSystemParser::new(item);
        let start = match builder.axiom_text() {
            Some(start) => start,
            None => {
                return None;
            },
        };
        let mut lsystem = LSystem::new(start.as_str(), DefaultAlphabetSymbolDefiner);
        assert(lsystem.rule_texts() =~= Map::<Seq<char>, (Seq<char>, Seq<char>)>::empty());
        lsystem.set_name(builder.lsystem_name());
        lsystem.set_action_rules(builder.interpret_rules());
        builder.replacement_rules(&mut lsystem);
        Some(lsystem)
    }
}

} // verus!
