//! Tokens, and the lexer that cuts a script into them.
//!
//! Lexing has two steps. First every character is sorted: eight regular
//! expressions, one for each class of characters, are asked whether they
//! match it ([`Lexer::sort`]). Then the sorted text is cut into tokens, from
//! left to right ([`lex_sorted`]): a character of a one-character class is
//! a token, and so is a run of letters, of digits and points, and of
//! whitespace.
//!
//! What the regular expressions match is the business of the `regex` crate.
//! The contracts name it ([`regex_language`], [`pattern_language`]) and say
//! everything else.

use vstd::prelude::*;
use regex::Regex;
use crate::number::{is_float_literal, Number};
use crate::text::{
    char_string, first_index, lemma_first_index, lemma_slice_fits, lemma_vec_fits, to_chars,
};

verus! {

/// A token of a script.
#[derive(PartialEq, Debug)]
pub enum Token {
    /// A run of letters: a keyword, the name of an action or a symbol.
    Ident(String),
    /// A numeric literal.
    Number(Number),
    /// A range between two numeric literals, written `low..high`.
    Range(Number, Number),
    /// An operator, a comparison sign, a comma or a point.
    Symbol(char),
    /// `(` or `)`.
    Param(char),
    /// `[` or `]`.
    Bracket(char),
    /// `;`.
    Break,
    /// `{` or `}`.
    Parentesis(char),
    /// A run of whitespace.
    Space,
}

/// The view of a [`Token`].
pub enum TokenView {
    Ident(Seq<char>),
    Number(Seq<char>),
    Range(Seq<char>, Seq<char>),
    Symbol(char),
    Param(char),
    Bracket(char),
    Break,
    Parentesis(char),
    Space,
}

impl View for Token {
    type V = TokenView;

    open spec fn view(&self) -> TokenView {
        match self {
            Token::Ident(ident) => TokenView::Ident(ident@),
            Token::Number(n) => TokenView::Number(n@),
            Token::Range(low, high) => TokenView::Range(low@, high@),
            Token::Symbol(c) => TokenView::Symbol(*c),
            Token::Param(c) => TokenView::Param(*c),
            Token::Bracket(c) => TokenView::Bracket(*c),
            Token::Break => TokenView::Break,
            Token::Parentesis(c) => TokenView::Parentesis(*c),
            Token::Space => TokenView::Space,
        }
    }
}

impl Clone for Token {
    fn clone(&self) -> (r: Self)
        ensures
            r@ == self@,
    {
        match self {
            Token::Ident(ident) => Token::Ident(ident.clone()),
            Token::Number(n) => Token::Number(n.clone()),
            Token::Range(low, high) => Token::Range(low.clone(), high.clone()),
            Token::Symbol(c) => Token::Symbol(*c),
            Token::Param(c) => Token::Param(*c),
            Token::Bracket(c) => Token::Bracket(*c),
            Token::Break => Token::Break,
            Token::Parentesis(c) => Token::Parentesis(*c),
            Token::Space => Token::Space,
        }
    }
}

/// The views of a sequence of tokens.
pub open spec fn tokens_view(tokens: Seq<Token>) -> Seq<TokenView> {
    Seq::new(tokens.len(), |i: int| tokens[i]@)
}

/// How a token is written: an identifier, a literal or a character as it
/// stands, a range with two points between its bounds, a break as `;` and a
/// space as one blank.
pub open spec fn token_text(token: TokenView) -> Seq<char> {
    match token {
        TokenView::Ident(ident) => ident,
        TokenView::Number(n) => n,
        TokenView::Range(low, high) => low + seq!['.', '.'] + high,
        TokenView::Symbol(c) => seq![c],
        TokenView::Param(c) => seq![c],
        TokenView::Bracket(c) => seq![c],
        TokenView::Break => seq![';'],
        TokenView::Parentesis(c) => seq![c],
        TokenView::Space => seq![' '],
    }
}

/// The texts of the tokens, one after the other.
pub open spec fn tokens_text(tokens: Seq<TokenView>) -> Seq<char>
    decreases tokens.len(),
{
    if tokens.len() == 0 {
        Seq::empty()
    } else {
        tokens_text(tokens.drop_last()) + token_text(tokens.last())
    }
}

impl Token {
    /// The token as it is written.
    pub fn to_string(&self) -> (r: String)
        ensures
            r@ == token_text(self@),
    {
        let mut out = String::new();
        match self {
            Token::Ident(ident) => out.append(ident.as_str()),
            Token::Number(n) => out.append(n.as_str()),
            Token::Range(low, high) => {
                out.append(low.as_str());
                out.push('.');
                out.push('.');
                out.append(high.as_str());
            },
            Token::Symbol(s) => out.push(*s),
            Token::Param(param) => out.push(*param),
            Token::Bracket(b) => out.push(*b),
            Token::Break => out.push(';'),
            Token::Parentesis(p) => out.push(*p),
            Token::Space => out.push(' '),
        }
        assert(out@ =~= token_text(self@));
        out
    }
}

/// Kinds of statement known to the lexer.
pub enum Statements {
    Action(),
}

/// A compiled regular expression of the `regex` crate.
#[verifier::external_type_specification]
#[verifier::external_body]
pub struct ExRegex(Regex);

/// What `Regex::new` reports of a pattern that it rejects.
#[verifier::external_type_specification]
#[verifier::external_body]
pub struct ExRegexError(regex::Error);

/// The haystacks in which a compiled regular expression finds a match.
pub uninterp spec fn regex_language(re: Regex) -> Set<Seq<char>>;

/// The haystacks in which the regular expression compiled from `pattern`
/// finds a match, `None` where the pattern is rejected.
pub uninterp spec fn pattern_language(pattern: Seq<char>) -> Option<Set<Seq<char>>>;

/// `Regex::new`: compiles `pattern`, or reports why it is rejected. The
/// expression that comes back matches what the pattern stands for.
#[verifier::external_body]
fn compile(pattern: &str) -> (r: Result<Regex, regex::Error>)
    ensures
        match r {
            Ok(re) => pattern_language(pattern@) == Some(regex_language(re)),
            Err(_) => pattern_language(pattern@) is None,
        },
{
    Regex::new(pattern)
}

/// `Regex::is_match`: whether the expression finds a match anywhere in
/// `haystack`.
#[verifier::external_body]
fn is_match(re: &Regex, haystack: &str) -> (r: bool)
    ensures
        r == regex_language(*re).contains(haystack@),
{
    re.is_match(haystack)
}

/// Why a script could not be cut into tokens.
#[derive(PartialEq, Eq, Clone, Copy, Debug, Structural)]
pub enum LexError {
    /// One of the lexer's own patterns was rejected.
    Pattern,
    /// The character `found` at index `at` belongs to no class.
    UnknownChar { found: char, at: usize },
    /// The run of digits and points that starts at `at` is no number.
    Number { at: usize },
    /// The lower bound of the range that starts at `at` is no number.
    RangeStart { at: usize },
    /// The range that starts at `at` has nothing behind its two points.
    RangeEndMissing { at: usize },
    /// The upper bound of the range that starts at `at` is no number.
    RangeEnd { at: usize },
}

/// The class of a character, in the order in which the lexer asks.
#[derive(PartialEq, Eq, Clone, Copy, Debug, Structural)]
pub enum CharClass {
    Symbol,
    Break,
    Parentesis,
    Bracket,
    Param,
    Letter,
    Digit,
    Blank,
    Unknown,
}

/// The pattern of letters.
pub const LETTER_PATTERN: &'static str = r"[a-zA-Z]";

/// The pattern of symbols.
pub const SYMBOL_PATTERN: &'static str = r"\+|-|\*|/|>|<|&|\||\\|\^|=|,|\.";

/// The pattern of brackets.
pub const BRACKET_PATTERN: &'static str = r"\[|\]";

/// The pattern of parameter signs.
pub const PARAM_PATTERN: &'static str = r"\(|\)";

/// The pattern of whitespace.
pub const WHITESPACE_PATTERN: &'static str = r"\s";

/// The pattern of breaks.
pub const BREAK_PATTERN: &'static str = r";";

/// The pattern of braces.
pub const BRACE_PATTERN: &'static str = r"\{|\}";

/// The pattern of numbers.
pub const NUMBER_PATTERN: &'static str = r"\d+.\d+|\d+";

/// Which of the patterns of the lexer match a character.
#[derive(PartialEq, Eq, Clone, Copy, Debug, Structural)]
pub struct Sorted {
    /// The pattern of symbols matches.
    pub symbol: bool,
    /// The pattern of breaks matches.
    pub end: bool,
    /// The pattern of braces matches.
    pub brace: bool,
    /// The pattern of brackets matches.
    pub bracket: bool,
    /// The pattern of parameter signs matches.
    pub param: bool,
    /// The pattern of letters matches.
    pub letter: bool,
    /// The pattern of numbers matches.
    pub digit: bool,
    /// The pattern of whitespace matches.
    pub blank: bool,
}

impl Sorted {
    /// The class of the character: the first, in the order of
    /// [`CharClass`], whose pattern matches it.
    pub open spec fn class(self) -> CharClass {
        if self.symbol {
            CharClass::Symbol
        } else if self.end {
            CharClass::Break
        } else if self.brace {
            CharClass::Parentesis
        } else if self.bracket {
            CharClass::Bracket
        } else if self.param {
            CharClass::Param
        } else if self.letter {
            CharClass::Letter
        } else if self.digit {
            CharClass::Digit
        } else if self.blank {
            CharClass::Blank
        } else {
            CharClass::Unknown
        }
    }

    /// The class of the character.
    pub fn char_class(&self) -> (r: CharClass)
        ensures
            r == self.class(),
    {
        if self.symbol {
            CharClass::Symbol
        } else if self.end {
            CharClass::Break
        } else if self.brace {
            CharClass::Parentesis
        } else if self.bracket {
            CharClass::Bracket
        } else if self.param {
            CharClass::Param
        } else if self.letter {
            CharClass::Letter
        } else if self.digit {
            CharClass::Digit
        } else if self.blank {
            CharClass::Blank
        } else {
            CharClass::Unknown
        }
    }
}

/// The regular expressions that sort the characters of a script.
pub struct LanguageRegex {
    char_regex: Regex,
    symbol_regex: Regex,
    branching_regex: Regex,
    param_regex: Regex,
    whitespace_regex: Regex,
    break_regex: Regex,
    parentesis_regex: Regex,
    number_regex: Regex,
}

/// Whether `re` finds a match in the haystack that holds `c` alone.
pub open spec fn matches_char(re: Regex, c: char) -> bool {
    regex_language(re).contains(seq![c])
}

/// Whether `re` was compiled from `pattern`.
pub open spec fn compiled_from(re: Regex, pattern: Seq<char>) -> bool {
    pattern_language(pattern) == Some(regex_language(re))
}

/// Whether `Regex::new` accepts the patterns of all classes.
pub open spec fn patterns_accepted() -> bool {
    &&& pattern_language(LETTER_PATTERN@) is Some
    &&& pattern_language(SYMBOL_PATTERN@) is Some
    &&& pattern_language(BRACKET_PATTERN@) is Some
    &&& pattern_language(PARAM_PATTERN@) is Some
    &&& pattern_language(WHITESPACE_PATTERN@) is Some
    &&& pattern_language(BREAK_PATTERN@) is Some
    &&& pattern_language(BRACE_PATTERN@) is Some
    &&& pattern_language(NUMBER_PATTERN@) is Some
}

impl LanguageRegex {
    /// Whether every expression was compiled from the pattern of its class.
    pub closed spec fn from_patterns(&self) -> bool {
        &&& compiled_from(self.char_regex, LETTER_PATTERN@)
        &&& compiled_from(self.symbol_regex, SYMBOL_PATTERN@)
        &&& compiled_from(self.branching_regex, BRACKET_PATTERN@)
        &&& compiled_from(self.param_regex, PARAM_PATTERN@)
        &&& compiled_from(self.whitespace_regex, WHITESPACE_PATTERN@)
        &&& compiled_from(self.break_regex, BREAK_PATTERN@)
        &&& compiled_from(self.parentesis_regex, BRACE_PATTERN@)
        &&& compiled_from(self.number_regex, NUMBER_PATTERN@)
    }

    /// Which of the expressions find a match in the haystack that holds
    /// `c` alone.
    pub closed spec fn sorted(&self, c: char) -> Sorted {
        Sorted {
            symbol: matches_char(self.symbol_regex, c),
            end: matches_char(self.break_regex, c),
            brace: matches_char(self.parentesis_regex, c),
            bracket: matches_char(self.branching_regex, c),
            param: matches_char(self.param_regex, c),
            letter: matches_char(self.char_regex, c),
            digit: matches_char(self.number_regex, c),
            blank: matches_char(self.whitespace_regex, c),
        }
    }

    /// Compiles the pattern of every class.
    pub fn new() -> (r: Result<Self, LexError>)
        ensures
            match r {
                Ok(regex) => regex.from_patterns(),
                Err(e) => e == LexError::Pattern && !patterns_accepted(),
            },
    {
        let char_regex = compile(LETTER_PATTERN);
        let symbol_regex = compile(SYMBOL_PATTERN);
        let branching_regex = compile(BRACKET_PATTERN);
        let param_regex = compile(PARAM_PATTERN);
        let whitespace_regex = compile(WHITESPACE_PATTERN);
        let break_regex = compile(BREAK_PATTERN);
        let parentesis_regex = compile(BRACE_PATTERN);
        let number_regex = compile(NUMBER_PATTERN);
        match (
            char_regex,
            symbol_regex,
            branching_regex,
            param_regex,
            whitespace_regex,
            break_regex,
            parentesis_regex,
            number_regex,
        ) {
            (
                Ok(char_regex),
                Ok(symbol_regex),
                Ok(branching_regex),
                Ok(param_regex),
                Ok(whitespace_regex),
                Ok(break_regex),
                Ok(parentesis_regex),
                Ok(number_regex),
            ) => Ok(
                LanguageRegex {
                    char_regex,
                    symbol_regex,
                    branching_regex,
                    param_regex,
                    whitespace_regex,
                    break_regex,
                    parentesis_regex,
                    number_regex,
                },
            ),
            _ => Err(LexError::Pattern),
        }
    }

    /// Asks every expression about the one character that `token` holds.
    fn sort(&self, token: &str) -> (r: Sorted)
        requires
            token@.len() == 1,
        ensures
            r == self.sorted(token@[0]),
    {
        assert(token@ =~= seq![token@[0]]);
        Sorted {
            symbol: is_match(&self.symbol_regex, token),
            end: is_match(&self.break_regex, token),
            brace: is_match(&self.parentesis_regex, token),
            bracket: is_match(&self.branching_regex, token),
            param: is_match(&self.param_regex, token),
            letter: is_match(&self.char_regex, token),
            digit: is_match(&self.number_regex, token),
            blank: is_match(&self.whitespace_regex, token),
        }
    }
}

/// The text of a script with a cursor.
pub struct UnlexedTokens {
    tokens: Vec<char>,
    index: usize,
}

impl UnlexedTokens {
    /// The characters of the script.
    pub closed spec fn text(&self) -> Seq<char> {
        self.tokens@
    }

    /// Where the cursor stands.
    pub closed spec fn position(&self) -> int {
        self.index as int
    }

    /// The text `input` with the cursor on its first character.
    pub fn new(input: String) -> (r: Self)
        ensures
            r.text() == input@,
            r.position() == 0,
    {
        UnlexedTokens { tokens: to_chars(input.as_str()), index: 0 }
    }

    /// Whether the cursor is past the last character.
    pub fn finished(&self) -> (r: bool)
        ensures
            r == (self.position() >= self.text().len()),
    {
        self.index >= self.tokens.len()
    }

    /// The character under the cursor, as a string.
    pub fn current_token(&self) -> (r: String)
        requires
            self.position() < self.text().len(),
        ensures
            r@ == seq![self.text()[self.position()]],
    {
        char_string(self.tokens[self.index])
    }

    /// The first character of `token`.
    pub fn first_char(token: &str) -> (r: char)
        requires
            token@.len() > 0,
        ensures
            r == token@[0],
    {
        token.get_char(0)
    }

    /// Moves the cursor one character on.
    pub fn advance(&mut self)
        ensures
            final(self).text() == old(self).text(),
            final(self).position() == if old(self).position() < usize::MAX {
                old(self).position() + 1
            } else {
                old(self).position()
            },
            old(self).position() < old(self).text().len() ==> final(self).position() == old(
                self,
            ).position() + 1,
    {
        proof {
            lemma_vec_fits(&self.tokens);
        }
        if self.index < usize::MAX {
            self.index += 1;
        }
    }

    /// Moves the cursor `count` characters on.
    pub fn advance_by(&mut self, count: usize)
        ensures
            final(self).text() == old(self).text(),
            final(self).position() == if old(self).position() + count <= usize::MAX {
                old(self).position() + count
            } else {
                usize::MAX as int
            },
    {
        self.index = self.index.saturating_add(count);
    }
}

/// The first index from `lo` on at which two points stand side by side, or
/// the length of `text` where there is none.
pub open spec fn double_point(text: Seq<char>, lo: int) -> int
    decreases text.len() - lo,
{
    if lo < 0 || lo + 1 >= text.len() {
        text.len() as int
    } else if text[lo] == '.' && text[lo + 1] == '.' {
        lo
    } else {
        double_point(text, lo + 1)
    }
}

/// Where two points stand side by side from `lo` on, `double_point` finds
/// the first such place.
pub proof fn lemma_double_point(text: Seq<char>, lo: int)
    requires
        0 <= lo,
    ensures
        lo <= double_point(text, lo) || double_point(text, lo) == text.len(),
        double_point(text, lo) < text.len() ==> {
            &&& double_point(text, lo) + 1 < text.len()
            &&& text[double_point(text, lo)] == '.'
            &&& text[double_point(text, lo) + 1] == '.'
        },
    decreases text.len() - lo,
{
    if lo + 1 < text.len() && !(text[lo] == '.' && text[lo + 1] == '.') {
        lemma_double_point(text, lo + 1);
    }
}

/// The token that a run of digits and points stands for, for a run that
/// starts at index `at` of the script: a range where two points stand side
/// by side, with the literals before and behind the first such pair as its
/// bounds, else a number.
pub open spec fn number_token(text: Seq<char>, at: usize) -> Result<TokenView, LexError> {
    let mark = double_point(text, 0);
    if mark < text.len() {
        let low = text.subrange(0, mark);
        let high = text.subrange(mark + 2, text.len() as int);
        if !is_float_literal(low) {
            Err(LexError::RangeStart { at })
        } else if high.len() == 0 {
            Err(LexError::RangeEndMissing { at })
        } else if !is_float_literal(high) {
            Err(LexError::RangeEnd { at })
        } else {
            Ok(TokenView::Range(low, high))
        }
    } else if is_float_literal(text) {
        Ok(TokenView::Number(text))
    } else {
        Err(LexError::Number { at })
    }
}

/// The characters of a sorted text.
pub open spec fn chars_of(text: Seq<(char, Sorted)>) -> Seq<char> {
    Seq::new(text.len(), |i: int| text[i].0)
}

/// Where the identifier that starts at `pos` ends: at the first character
/// that the pattern of letters does not match.
pub open spec fn ident_end(text: Seq<(char, Sorted)>, pos: int) -> int {
    first_index(pos, text.len() as int, |i: int| !text[i].1.letter)
}

/// Where the run of digits and points that starts at `pos` ends: at the
/// first character that is no point and that the pattern of numbers does
/// not match.
pub open spec fn number_end(text: Seq<(char, Sorted)>, pos: int) -> int {
    first_index(pos, text.len() as int, |i: int| !(text[i].1.digit || text[i].0 == '.'))
}

/// Where the run of whitespace that starts at `pos` ends: at the first
/// character that the pattern of whitespace does not match.
pub open spec fn blank_end(text: Seq<(char, Sorted)>, pos: int) -> int {
    first_index(pos, text.len() as int, |i: int| !text[i].1.blank)
}

/// The token that starts at `pos`, and where it ends.
pub open spec fn token_at(text: Seq<(char, Sorted)>, pos: int) -> Result<(TokenView, int), LexError> {
    let c = text[pos].0;
    match text[pos].1.class() {
        CharClass::Symbol => Ok((TokenView::Symbol(c), pos + 1)),
        CharClass::Break => Ok((TokenView::Break, pos + 1)),
        CharClass::Parentesis => Ok((TokenView::Parentesis(c), pos + 1)),
        CharClass::Bracket => Ok((TokenView::Bracket(c), pos + 1)),
        CharClass::Param => Ok((TokenView::Param(c), pos + 1)),
        CharClass::Letter => {
            let end = ident_end(text, pos);
            Ok((TokenView::Ident(chars_of(text).subrange(pos, end)), end))
        },
        CharClass::Digit => {
            let end = number_end(text, pos);
            match number_token(chars_of(text).subrange(pos, end), pos as usize) {
                Ok(token) => Ok((token, end)),
                Err(e) => Err(e),
            }
        },
        CharClass::Blank => Ok((TokenView::Space, blank_end(text, pos))),
        CharClass::Unknown => Err(LexError::UnknownChar { found: c, at: pos as usize }),
    }
}

/// The tokens of `text` from `pos` on, behind those in `read`.
pub open spec fn lexed_from(text: Seq<(char, Sorted)>, pos: int, read: Seq<TokenView>) -> Result<
    Seq<TokenView>,
    LexError,
>
    decreases text.len() - pos,
{
    if pos < 0 || pos >= text.len() {
        Ok(read)
    } else {
        match token_at(text, pos) {
            Ok((token, end)) => if pos < end <= text.len() {
                lexed_from(text, end, read.push(token))
            } else {
                Ok(read)
            },
            Err(e) => Err(e),
        }
    }
}

/// The tokens of `text`: one for every character of a one-character class,
/// one for every run of letters, of digits and points, and of whitespace.
pub open spec fn lexed(text: Seq<(char, Sorted)>) -> Result<Seq<TokenView>, LexError> {
    lexed_from(text, 0, Seq::empty())
}

/// A token ends behind where it starts, and within the text.
pub proof fn lemma_token_advances(text: Seq<(char, Sorted)>, pos: int)
    requires
        0 <= pos < text.len(),
    ensures
        token_at(text, pos) matches Ok((_, end)) ==> pos < end <= text.len(),
{
    let n = text.len() as int;
    lemma_first_index(pos, n, |i: int| !text[i].1.letter);
    lemma_first_index(pos, n, |i: int| !(text[i].1.digit || text[i].0 == '.'));
    lemma_first_index(pos, n, |i: int| !text[i].1.blank);
}

/// The tokens of `text` from `pos` on, up to the first that fails, each
/// with the place where it starts and the place where it ends.
pub open spec fn cut_from(text: Seq<(char, Sorted)>, pos: int) -> Seq<(TokenView, int, int)>
    decreases text.len() - pos,
{
    if pos < 0 || pos >= text.len() {
        Seq::empty()
    } else {
        match token_at(text, pos) {
            Ok((token, end)) => if pos < end <= text.len() {
                seq![(token, pos, end)] + cut_from(text, end)
            } else {
                Seq::empty()
            },
            Err(_) => Seq::empty(),
        }
    }
}

/// The tokens of a cut, without their places.
pub open spec fn tokens_of_cut(cut: Seq<(TokenView, int, int)>) -> Seq<TokenView> {
    Seq::new(cut.len(), |i: int| cut[i].0)
}

/// Lexing keeps the order of the script: the tokens are cut one behind the
/// other, from left to right. The first starts at `pos`, every other one
/// starts where the one before it ends, and none is empty.
pub proof fn lemma_cut_in_order(text: Seq<(char, Sorted)>, pos: int)
    requires
        0 <= pos <= text.len(),
    ensures
        cut_from(text, pos).len() > 0 ==> cut_from(text, pos)[0].1 == pos,
        forall|i: int|
            0 <= i < cut_from(text, pos).len() ==> (#[trigger] cut_from(text, pos)[i]).1
                < cut_from(text, pos)[i].2 <= text.len(),
        forall|i: int|
            0 < i < cut_from(text, pos).len() ==> (#[trigger] cut_from(text, pos)[i]).1
                == cut_from(text, pos)[i - 1].2,
    decreases text.len() - pos,
{
    let cut = cut_from(text, pos);
    if cut.len() > 0 {
        let end = token_at(text, pos)->Ok_0.1;
        let rest = cut_from(text, end);
        lemma_cut_in_order(text, end);
        assert(cut[0].1 == pos && cut[0].2 == end);
        assert forall|i: int| 0 < i < cut.len() implies (#[trigger] cut[i]).1 == cut[i - 1].2
            && cut[i].1 < cut[i].2 <= text.len() by {
            assert(cut[i] == rest[i - 1]);
            if i > 1 {
                assert(cut[i - 1] == rest[i - 2]);
            }
        }
    }
}

/// Where lexing succeeds, the tokens that it returns are those of the cut,
/// behind the tokens that were read before, and the cut goes up to the end
/// of the text.
pub proof fn lemma_lexed_is_cut(text: Seq<(char, Sorted)>, pos: int, read: Seq<TokenView>)
    requires
        0 <= pos <= text.len(),
        lexed_from(text, pos, read) is Ok,
    ensures
        lexed_from(text, pos, read)->Ok_0 == read + tokens_of_cut(cut_from(text, pos)),
        pos < text.len() ==> cut_from(text, pos).len() > 0 && cut_from(text, pos).last().2
            == text.len(),
    decreases text.len() - pos,
{
    if pos >= text.len() {
        assert(read + tokens_of_cut(cut_from(text, pos)) =~= read);
    } else {
        lemma_token_advances(text, pos);
        let token = token_at(text, pos)->Ok_0.0;
        let end = token_at(text, pos)->Ok_0.1;
        let rest = cut_from(text, end);
        lemma_lexed_is_cut(text, end, read.push(token));
        assert(read.push(token) + tokens_of_cut(rest) =~= read + tokens_of_cut(
            cut_from(text, pos),
        ));
        if end < text.len() {
            assert(cut_from(text, pos).last() == rest.last());
        }
    }
}

/// Lexing succeeds where every character can start a token: where it
/// belongs to a class and, if it is a digit, the run of digits and points
/// that starts with it is a number or a range.
pub proof fn lemma_lexing_succeeds(text: Seq<(char, Sorted)>, pos: int, read: Seq<TokenView>)
    requires
        0 <= pos <= text.len(),
        forall|i: int| 0 <= i < text.len() ==> #[trigger] token_at(text, i) is Ok,
    ensures
        lexed_from(text, pos, read) is Ok,
    decreases text.len() - pos,
{
    if pos < text.len() {
        lemma_token_advances(text, pos);
        let (token, end) = token_at(text, pos)->Ok_0;
        lemma_lexing_succeeds(text, end, read.push(token));
    }
}

/// Whether every token of `text` is written as it is read: every character
/// of the class of breaks is `;`, and every character that the pattern of
/// whitespace matches is one blank with no such character behind it.
pub open spec fn plainly_written(text: Seq<(char, Sorted)>) -> bool {
    &&& forall|i: int|
        0 <= i < text.len() && (#[trigger] text[i]).1.class() == CharClass::Break ==> text[i].0
            == ';'
    &&& forall|i: int|
        0 <= i < text.len() && (#[trigger] text[i]).1.blank ==> text[i].0 == ' ' && !(i + 1
            < text.len() && text[i + 1].1.blank)
}

/// The token that starts at `pos` of a text that is plainly written has the
/// characters between its start and its end as its text.
pub proof fn lemma_token_text(text: Seq<(char, Sorted)>, pos: int)
    requires
        0 <= pos < text.len(),
        plainly_written(text),
        token_at(text, pos) is Ok,
    ensures
        token_text(token_at(text, pos)->Ok_0.0) == chars_of(text).subrange(
            pos,
            token_at(text, pos)->Ok_0.1,
        ),
{
    let src = chars_of(text);
    let c = text[pos].0;
    let n = text.len() as int;
    let (token, end) = token_at(text, pos)->Ok_0;
    lemma_token_advances(text, pos);
    match text[pos].1.class() {
        CharClass::Letter => {},
        CharClass::Digit => {
            let run = src.subrange(pos, end);
            let mark = double_point(run, 0);
            lemma_double_point(run, 0);
            if mark < run.len() {
                assert(run.subrange(0, mark) + seq!['.', '.'] + run.subrange(
                    mark + 2,
                    run.len() as int,
                ) =~= run);
            }
        },
        CharClass::Blank => {
            let stop = |i: int| !text[i].1.blank;
            assert(text[pos].1.blank);
            if pos + 1 < n {
                assert(stop(pos + 1));
                assert(first_index(pos + 1, n, stop) == pos + 1);
            }
            assert(end == pos + 1);
            assert(src.subrange(pos, end) =~= seq![' ']);
        },
        _ => {
            assert(src.subrange(pos, pos + 1) =~= seq![c]);
        },
    }
}

/// The texts of the tokens from `pos` on, written behind a text that is the
/// script up to `pos`, make the script.
pub proof fn lemma_texts_from(text: Seq<(char, Sorted)>, pos: int, read: Seq<TokenView>)
    requires
        0 <= pos <= text.len(),
        plainly_written(text),
        tokens_text(read) == chars_of(text).take(pos),
        lexed_from(text, pos, read) is Ok,
    ensures
        tokens_text(lexed_from(text, pos, read)->Ok_0) == chars_of(text),
    decreases text.len() - pos,
{
    let src = chars_of(text);
    if pos >= text.len() {
        assert(src.take(pos) =~= src);
    } else {
        lemma_token_advances(text, pos);
        lemma_token_text(text, pos);
        let (token, end) = token_at(text, pos)->Ok_0;
        let next = read.push(token);
        assert(next.drop_last() =~= read);
        assert(tokens_text(next) == tokens_text(read) + token_text(token));
        assert(src.take(pos) + src.subrange(pos, end) =~= src.take(end));
        lemma_texts_from(text, end, next);
    }
}

/// Lexing loses nothing: the texts of the tokens of a script that is
/// plainly written, one after the other, are the script.
pub proof fn lemma_lexing_keeps_the_text(text: Seq<(char, Sorted)>)
    requires
        lexed(text) is Ok,
        plainly_written(text),
    ensures
        tokens_text(lexed(text)->Ok_0) == chars_of(text),
{
    assert(chars_of(text).take(0) =~= Seq::<char>::empty());
    lemma_texts_from(text, 0, Seq::empty());
}

/// Cuts a sorted text into tokens, from left to right.
pub fn lex_sorted(text: &[(char, Sorted)]) -> (r: Result<Vec<Token>, LexError>)
    ensures
        match lexed(text@) {
            Ok(tokens) => r is Ok && tokens_view(r->Ok_0@) == tokens,
            Err(e) => r is Err && r->Err_0 == e,
        },
{
    let mut lexed_tokens: Vec<Token> = Vec::new();
    let mut index: usize = 0;
    assert(tokens_view(lexed_tokens@) =~= Seq::<TokenView>::empty());
    while index < text.len()
        invariant
            index <= text@.len(),
            lexed(text@) == lexed_from(text@, index as int, tokens_view(lexed_tokens@)),
        decreases text@.len() - index,
    {
        proof {
            lemma_token_advances(text@, index as int);
        }
        lex_next_char(text, &mut index, &mut lexed_tokens)?;
    }
    Ok(lexed_tokens)
}

/// The character at `at`.
fn char_at(text: &[(char, Sorted)], at: usize) -> (r: char)
    requires
        at < text@.len(),
    ensures
        r == text@[at as int].0,
{
    text[at].0
}

/// Reads the token that starts at `index`, appends it to `tokens` and moves
/// `index` behind it.
fn lex_next_char(text: &[(char, Sorted)], index: &mut usize, tokens: &mut Vec<Token>) -> (r: Result<
    (),
    LexError,
>)
    requires
        *old(index) < text@.len(),
    ensures
        match token_at(text@, *old(index) as int) {
            Ok((token, end)) => r is Ok && *final(index) == end && tokens_view(final(tokens)@)
                == tokens_view(old(tokens)@).push(token),
            Err(e) => r is Err && r->Err_0 == e,
        },
{
    let ghost before = tokens_view(tokens@);
    let at = *index;
    let current_char = char_at(text, at);
    proof {
        lemma_slice_fits(text);
        lemma_token_advances(text@, at as int);
    }
    let token = match text[at].1.char_class() {
        CharClass::Symbol => {
            *index = at + 1;
            Token::Symbol(current_char)
        },
        CharClass::Break => {
            *index = at + 1;
            Token::Break
        },
        CharClass::Parentesis => {
            *index = at + 1;
            Token::Parentesis(current_char)
        },
        CharClass::Bracket => {
            *index = at + 1;
            Token::Bracket(current_char)
        },
        CharClass::Param => {
            *index = at + 1;
            Token::Param(current_char)
        },
        CharClass::Letter => {
            let mut ident = String::new();
            lex_string(text, index, &mut ident);
            assert(ident@ =~= chars_of(text@).subrange(at as int, *index as int));
            Token::Ident(ident)
        },
        CharClass::Digit => {
            let number = lex_number(text, index);
            assert(number@ =~= chars_of(text@).subrange(at as int, *index as int));
            assert(number@.subrange(0, number@.len() as int) =~= number@);
            match lexed_number(number.as_slice(), 0, number.len()) {
                Ok(token) => token,
                Err(LexError::RangeStart { .. }) => {
                    return Err(LexError::RangeStart { at });
                },
                Err(LexError::RangeEndMissing { .. }) => {
                    return Err(LexError::RangeEndMissing { at });
                },
                Err(LexError::RangeEnd { .. }) => {
                    return Err(LexError::RangeEnd { at });
                },
                Err(_) => {
                    return Err(LexError::Number { at });
                },
            }
        },
        CharClass::Blank => {
            lex_blank(text, index);
            Token::Space
        },
        CharClass::Unknown => {
            return Err(LexError::UnknownChar { found: current_char, at });
        },
    };
    tokens.push(token);
    assert(tokens_view(tokens@) =~= before.push(token@));
    Ok(())
}

/// Moves `index` to the end of the run of letters that it stands in, and
/// appends the run to `chars`.
fn lex_string(text: &[(char, Sorted)], index: &mut usize, chars: &mut String)
    requires
        *old(index) <= text@.len(),
    ensures
        *final(index) == ident_end(text@, *old(index) as int),
        *old(index) <= *final(index) <= text@.len(),
        final(chars)@ == old(chars)@ + chars_of(text@).subrange(
            *old(index) as int,
            *final(index) as int,
        ),
{
    let ghost src = chars_of(text@);
    let ghost start = *index as int;
    let ghost stop = |i: int| !text@[i].1.letter;
    let count = text.len();
    proof {
        assert(chars@ =~= old(chars)@ + src.subrange(start, start));
    }
    while *index < count && text[*index].1.letter
        invariant
            count == text@.len(),
            src == chars_of(text@),
            start == *old(index),
            start <= *index <= count,
            stop == (|i: int| !text@[i].1.letter),
            first_index(start, count as int, stop) == first_index(*index as int, count as int, stop),
            chars@ == old(chars)@ + src.subrange(start, *index as int),
        decreases count - *index,
    {
        let ghost here = *index as int;
        chars.push(text[*index].0);
        *index = *index + 1;
        proof {
            assert(src.subrange(start, here + 1) =~= src.subrange(start, here).push(src[here]));
        }
    }
}

/// Moves `index` to the end of the run of digits and points that it stands
/// in, and returns the run.
fn lex_number(text: &[(char, Sorted)], index: &mut usize) -> (r: Vec<char>)
    requires
        *old(index) <= text@.len(),
    ensures
        *final(index) == number_end(text@, *old(index) as int),
        *old(index) <= *final(index) <= text@.len(),
        r@ == chars_of(text@).subrange(*old(index) as int, *final(index) as int),
{
    let ghost src = chars_of(text@);
    let ghost start = *index as int;
    let ghost stop = |i: int| !(text@[i].1.digit || text@[i].0 == '.');
    let count = text.len();
    let mut number: Vec<char> = Vec::new();
    proof {
        assert(number@ =~= src.subrange(start, start));
    }
    while *index < count && (text[*index].1.digit || text[*index].0 == '.')
        invariant
            count == text@.len(),
            src == chars_of(text@),
            start == *old(index),
            start <= *index <= count,
            stop == (|i: int| !(text@[i].1.digit || text@[i].0 == '.')),
            first_index(start, count as int, stop) == first_index(*index as int, count as int, stop),
            number@ == src.subrange(start, *index as int),
        decreases count - *index,
    {
        let ghost here = *index as int;
        number.push(text[*index].0);
        *index = *index + 1;
        proof {
            assert(src.subrange(start, here + 1) =~= src.subrange(start, here).push(src[here]));
        }
    }
    number
}

/// Moves `index` to the end of the run of whitespace that it stands in.
fn lex_blank(text: &[(char, Sorted)], index: &mut usize)
    requires
        *old(index) <= text@.len(),
    ensures
        *final(index) == blank_end(text@, *old(index) as int),
{
    let ghost start = *index as int;
    let ghost stop = |i: int| !text@[i].1.blank;
    let count = text.len();
    while *index < count && text[*index].1.blank
        invariant
            count == text@.len(),
            start == *old(index),
            start <= *index <= count,
            stop == (|i: int| !text@[i].1.blank),
            first_index(start, count as int, stop) == first_index(*index as int, count as int, stop),
        decreases count - *index,
    {
        *index = *index + 1;
    }
}

/// The lexer of L-system scripts.
pub struct Lexer {
    regex: LanguageRegex,
}

impl Lexer {
    /// The expressions that sort the characters.
    pub closed spec fn classes(&self) -> LanguageRegex {
        self.regex
    }

    /// The characters of `src`, each with the patterns that match it.
    pub open spec fn sorted(&self, src: Seq<char>) -> Seq<(char, Sorted)> {
        Seq::new(src.len(), |i: int| (src[i], self.classes().sorted(src[i])))
    }

    /// The texts of the tokens that `lex` cuts a script into, one after the
    /// other, are the script, where the script is plainly written.
    pub proof fn lemma_lex_keeps_the_text(&self, src: Seq<char>)
        requires
            lexed(self.sorted(src)) is Ok,
            plainly_written(self.sorted(src)),
        ensures
            tokens_text(lexed(self.sorted(src))->Ok_0) == src,
    {
        lemma_lexing_keeps_the_text(self.sorted(src));
        assert(chars_of(self.sorted(src)) =~= src);
    }

    /// A lexer with the patterns of all classes compiled.
    pub fn new() -> (r: Result<Self, LexError>)
        ensures
            match r {
                Ok(lexer) => lexer.classes().from_patterns(),
                Err(e) => e == LexError::Pattern && !patterns_accepted(),
            },
    {
        match LanguageRegex::new() {
            Ok(regex) => Ok(Self { regex }),
            Err(e) => Err(e),
        }
    }

    /// Asks the patterns about every character of `input`.
    pub fn sort(&self, input: String) -> (r: Vec<(char, Sorted)>)
        ensures
            r@ == self.sorted(input@),
    {
        let mut unlexed_tokens = UnlexedTokens::new(input);
        let mut text: Vec<(char, Sorted)> = Vec::new();
        while !unlexed_tokens.finished()
            invariant
                unlexed_tokens.text() == input@,
                0 <= unlexed_tokens.position() <= input@.len(),
                text@ == self.sorted(input@).take(unlexed_tokens.position()),
            decreases input@.len() - unlexed_tokens.position(),
        {
            let ghost here = unlexed_tokens.position();
            let current_symbol = unlexed_tokens.current_token();
            let current_char = UnlexedTokens::first_char(current_symbol.as_str());
            text.push((current_char, self.regex.sort(current_symbol.as_str())));
            unlexed_tokens.advance();
            assert(text@ =~= self.sorted(input@).take(here + 1));
        }
        assert(self.sorted(input@).take(input@.len() as int) =~= self.sorted(input@));
        text
    }

    /// Cuts `input` into tokens, from left to right: one token for every
    /// character of a one-character class, one for every run of letters, of
    /// digits and points, and of whitespace.
    pub fn lex(&self, input: String) -> (r: Result<Vec<Token>, LexError>)
        ensures
            match lexed(self.sorted(input@)) {
                Ok(tokens) => r is Ok && tokens_view(r->Ok_0@) == tokens,
                Err(e) => r is Err && r->Err_0 == e,
            },
    {
        let text = self.sort(input);
        lex_sorted(text.as_slice())
    }
}

/// The index of the first pair of points in `chars[from..to]`, or `to`.
fn find_double_point(chars: &[char], from: usize, to: usize) -> (r: usize)
    requires
        from <= to <= chars@.len(),
    ensures
        from <= r <= to,
        r < to ==> r + 1 < to,
        r - from == double_point(chars@.subrange(from as int, to as int), 0),
{
    let ghost text = chars@.subrange(from as int, to as int);
    let mut i: usize = from;
    while to - i > 1
        invariant
            from <= i <= to <= chars@.len(),
            text == chars@.subrange(from as int, to as int),
            double_point(text, 0) == double_point(text, i - from),
        decreases to - i,
    {
        if chars[i] == '.' && chars[i + 1] == '.' {
            return i;
        }
        i += 1;
    }
    to
}

/// The token that the run `chars[from..to]` of digits and points stands
/// for.
pub fn lexed_number(chars: &[char], from: usize, to: usize) -> (r: Result<Token, LexError>)
    requires
        from <= to <= chars@.len(),
    ensures
        match number_token(chars@.subrange(from as int, to as int), from) {
            Ok(token) => r is Ok && r->Ok_0@ == token,
            Err(e) => r is Err && r->Err_0 == e,
        },
{
    let ghost text = chars@.subrange(from as int, to as int);
    let mark = find_double_point(chars, from, to);
    if mark < to {
        proof {
            assert(text.subrange(0, mark - from) =~= chars@.subrange(from as int, mark as int));
            assert(text.subrange(mark - from + 2, text.len() as int) =~= chars@.subrange(
                mark + 2,
                to as int,
            ));
        }
        let low = match Number::from_chars(chars, from, mark) {
            Some(low) => low,
            None => {
                return Err(LexError::RangeStart { at: from });
            },
        };
        if mark + 2 == to {
            return Err(LexError::RangeEndMissing { at: from });
        }
        match Number::from_chars(chars, mark + 2, to) {
            Some(high) => Ok(Token::Range(low, high)),
            None => Err(LexError::RangeEnd { at: from }),
        }
    } else {
        match Number::from_chars(chars, from, to) {
            Some(number) => Ok(Token::Number(number)),
            None => Err(LexError::Number { at: from }),
        }
    }
}

} // verus!
