//! Symbols, and the alphabet that a generated string is read into.

use vstd::prelude::*;
use std::slice::Iter;
use crate::text::to_chars;

verus! {

/// A symbol of an L-system.
#[derive(Hash, PartialEq, Eq, Debug)]
pub enum Symbol {
    /// A symbol that rules replace and that may stand for an action.
    Variable(char),
    /// A symbol that no rule replaces; it may stand for an action.
    Constant(char),
    /// A symbol with a list of parameter names.
    Module(char, Vec<char>),
}

/// The view of a [`Symbol`].
pub enum SymbolView {
    Variable(char),
    Constant(char),
    Module(char, Seq<char>),
}

impl View for Symbol {
    type V = SymbolView;

    open spec fn view(&self) -> SymbolView {
        match self {
            Symbol::Variable(c) => SymbolView::Variable(*c),
            Symbol::Constant(c) => SymbolView::Constant(*c),
            Symbol::Module(c, params) => SymbolView::Module(*c, params@),
        }
    }
}

impl SymbolView {
    /// The character that the symbol is written with.
    pub open spec fn letter(self) -> char {
        match self {
            SymbolView::Variable(c) => c,
            SymbolView::Constant(c) => c,
            SymbolView::Module(c, _) => c,
        }
    }
}

impl Clone for Symbol {
    fn clone(&self) -> (r: Self)
        ensures
            r@ == self@,
    {
        match self {
            Symbol::Variable(c) => Symbol::Variable(*c),
            Symbol::Constant(c) => Symbol::Constant(*c),
            Symbol::Module(c, params) => Symbol::Module(*c, params.clone()),
        }
    }
}

impl Symbol {
    /// The character that the symbol is written with.
    pub fn letter(&self) -> (r: char)
        ensures
            r == self@.letter(),
    {
        match self {
            Symbol::Variable(c) => *c,
            Symbol::Constant(c) => *c,
            Symbol::Module(c, _) => *c,
        }
    }
}

/// A part of the parameter list of a module.
pub enum Params {
    Param(char),
    Seperator(char),
}

/// Why a string is no string of an L-system.
#[derive(PartialEq, Eq, Clone, Copy, Debug, Structural)]
pub enum GrammarError {
    /// The character `found` at index `at` stands for no symbol.
    UndefinedSymbol { found: char, at: usize },
    /// The parameter list that opens behind the symbol at index `at` is
    /// not closed.
    UnclosedModule { at: usize },
}

/// Says which symbol a character stands for.
pub trait SymbolDefiner {
    /// The symbol that `c` stands for, `None` where it stands for none.
    ///
    /// A definer that is verified says here what its `into_symbol` returns.
    /// For one that is not, this is the name of what it returns.
    closed spec fn symbol_of(&self, c: char) -> Option<SymbolView> {
        arbitrary()
    }

    /// The symbol that `c` stands for.
    fn into_symbol(&self, c: char) -> (r: Option<Symbol>)
        ensures
            match r {
                Some(symbol) => self.symbol_of(c) == Some(symbol@),
                None => self.symbol_of(c) is None,
            },
    ;
}

/// The usual alphabet: the capital letters, `f`, `0` and `1` are variables;
/// `∧`, `\`, `/`, `|`, `&`, `+`, `-`, `[` and `]` are constants.
pub struct DefaultAlphabetSymbolDefiner;

/// Whether `c` is a variable of the usual alphabet.
pub open spec fn is_default_variable(c: char) -> bool {
    ('A' <= c <= 'Z') || c == 'f' || c == '0' || c == '1'
}

/// Whether `c` is a constant of the usual alphabet.
pub open spec fn is_default_constant(c: char) -> bool {
    c == '\u{2227}' || c == '\\' || c == '/' || c == '|' || c == '&' || c == '+' || c == '-' || c
        == '[' || c == ']'
}

impl SymbolDefiner for DefaultAlphabetSymbolDefiner {
    open spec fn symbol_of(&self, c: char) -> Option<SymbolView> {
        if is_default_variable(c) {
            Some(SymbolView::Variable(c))
        } else if is_default_constant(c) {
            Some(SymbolView::Constant(c))
        } else {
            None
        }
    }

    fn into_symbol(&self, c: char) -> (r: Option<Symbol>) {
        if ('A' <= c && c <= 'Z') || c == 'f' || c == '0' || c == '1' {
            Some(Symbol::Variable(c))
        } else if c == '\u{2227}' || c == '\\' || c == '/' || c == '|' || c == '&' || c == '+' || c
            == '-' || c == '[' || c == ']' {
            Some(Symbol::Constant(c))
        } else {
            None
        }
    }
}

/// A generated string, symbol by symbol, with the number of generations
/// that made it.
#[derive(Hash, PartialEq, Eq, Debug)]
pub struct Alphabet {
    /// The symbols, in order.
    pub symbols: Vec<Symbol>,
    /// The number of generations.
    pub generation: u8,
}

/// The view of an [`Alphabet`].
pub struct AlphabetView {
    pub symbols: Seq<SymbolView>,
    pub generation: u8,
}

/// The views of a sequence of symbols.
pub open spec fn symbols_view(symbols: Seq<Symbol>) -> Seq<SymbolView> {
    Seq::new(symbols.len(), |i: int| symbols[i]@)
}

impl View for Alphabet {
    type V = AlphabetView;

    open spec fn view(&self) -> AlphabetView {
        AlphabetView { symbols: symbols_view(self.symbols@), generation: self.generation }
    }
}

impl Clone for Alphabet {
    fn clone(&self) -> (r: Self)
        ensures
            r@ == self@,
    {
        let mut symbols: Vec<Symbol> = Vec::new();
        let mut i: usize = 0;
        while i < self.symbols.len()
            invariant
                i <= self.symbols@.len(),
                symbols@.len() == i,
                forall|j: int| 0 <= j < i ==> symbols@[j]@ == self.symbols@[j]@,
            decreases self.symbols@.len() - i,
        {
            symbols.push(self.symbols[i].clone());
            i += 1;
        }
        assert(symbols_view(symbols@) =~= symbols_view(self.symbols@));
        Alphabet { symbols, generation: self.generation }
    }
}

/// The symbols that the characters of `text` stand for, or the first
/// character that stands for none.
pub open spec fn symbols_of<A: SymbolDefiner>(definer: A, text: Seq<char>) -> Result<
    Seq<SymbolView>,
    GrammarError,
>
    decreases text.len(),
{
    if text.len() == 0 {
        Ok(Seq::empty())
    } else {
        match symbols_of(definer, text.drop_last()) {
            Ok(symbols) => match definer.symbol_of(text.last()) {
                Some(symbol) => Ok(symbols.push(symbol)),
                None => Err(
                    GrammarError::UndefinedSymbol {
                        found: text.last(),
                        at: (text.len() - 1) as usize,
                    },
                ),
            },
            Err(e) => Err(e),
        }
    }
}

/// The characters that the symbols are written with.
pub open spec fn letters_of(symbols: Seq<SymbolView>) -> Seq<char> {
    Seq::new(symbols.len(), |i: int| symbols[i].letter())
}

impl Alphabet {
    /// An alphabet without symbols, with room for `capacity` of them.
    fn with_capacity(capacity: usize, generation: u8) -> (r: Alphabet)
        ensures
            r@ == (AlphabetView { symbols: Seq::empty(), generation }),
    {
        let r = Alphabet { symbols: Vec::with_capacity(capacity), generation };
        assert(symbols_view(r.symbols@) =~= Seq::<SymbolView>::empty());
        r
    }

    /// Reads `alphabet_string` symbol by symbol. It fails on the first
    /// character that `alphabet_definition` gives no symbol for.
    pub fn from_string<A: SymbolDefiner>(
        alphabet_string: String,
        generations: u8,
        alphabet_definition: &A,
    ) -> (r: Result<Alphabet, GrammarError>)
        ensures
            match symbols_of(*alphabet_definition, alphabet_string@) {
                Ok(symbols) => r is Ok && r->Ok_0@ == (AlphabetView {
                    symbols,
                    generation: generations,
                }),
                Err(e) => r is Err && r->Err_0 == e,
            },
    {
        let chars = to_chars(alphabet_string.as_str());
        let mut alphabet = Alphabet::with_capacity(chars.len(), generations);
        let mut i: usize = 0;
        while i < chars.len()
            invariant
                i <= chars@.len(),
                chars@ == alphabet_string@,
                alphabet.generation == generations,
                symbols_of(*alphabet_definition, chars@.take(i as int)) == Ok::<
                    Seq<SymbolView>,
                    GrammarError,
                >(symbols_view(alphabet.symbols@)),
            decreases chars@.len() - i,
        {
            proof {
                assert(chars@.take(i + 1).drop_last() =~= chars@.take(i as int));
            }
            match alphabet_definition.into_symbol(chars[i]) {
                Some(letter) => {
                    alphabet.add_symbol(letter);
                },
                None => {
                    proof {
                        lemma_symbols_of_prefix(*alphabet_definition, chars@, i + 1);
                    }
                    return Err(GrammarError::UndefinedSymbol { found: chars[i], at: i });
                },
            }
            i += 1;
        }
        assert(chars@.take(chars@.len() as int) =~= chars@);
        Ok(alphabet)
    }

    /// The string that the symbols are written with.
    pub fn to_string(&self) -> (r: String)
        ensures
            r@ == letters_of(self@.symbols),
    {
        let mut out_string = String::new();
        let mut i: usize = 0;
        while i < self.symbols.len()
            invariant
                i <= self.symbols@.len(),
                out_string@ == letters_of(self@.symbols).take(i as int),
            decreases self.symbols@.len() - i,
        {
            out_string.push(self.symbols[i].letter());
            assert(out_string@ =~= letters_of(self@.symbols).take(i + 1));
            i += 1;
        }
        assert(letters_of(self@.symbols).take(self.symbols@.len() as int) =~= letters_of(
            self@.symbols,
        ));
        out_string
    }

    /// Appends `letter`.
    pub fn add_symbol(&mut self, letter: Symbol)
        ensures
            final(self)@.symbols == old(self)@.symbols.push(letter@),
            final(self)@.generation == old(self)@.generation,
    {
        self.symbols.push(letter);
        assert(symbols_view(self.symbols@) =~= symbols_view(old(self).symbols@).push(letter@));
    }

    /// The symbols, in order.
    pub fn iter(&self) -> (r: Iter<'_, Symbol>)
        ensures
            vstd::std_specs::slice::into_iter_elts(r) == self.symbols@,
    {
        self.symbols.iter()
    }
}

/// Where a prefix of `text` holds a character without a symbol, `text`
/// fails on the same character.
pub proof fn lemma_symbols_of_prefix<A: SymbolDefiner>(definer: A, text: Seq<char>, len: int)
    requires
        0 <= len <= text.len(),
        symbols_of(definer, text.take(len)) is Err,
    ensures
        symbols_of(definer, text) == symbols_of(definer, text.take(len)),
    decreases text.len() - len,
{
    if len < text.len() {
        assert(text.take(len + 1).drop_last() =~= text.take(len));
        lemma_symbols_of_prefix(definer, text, len + 1);
    } else {
        assert(text.take(len) =~= text);
    }
}

} // verus!
