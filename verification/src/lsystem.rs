//! The L-system: its rules, and the engine that rewrites its initial string.
//!
//! Rewriting goes through the string from left to right and, symbol by
//! symbol, asks in this order:
//!
//! 1. Does `(` follow the symbol? Then the symbol is a module, and its
//!    arguments go up to the next `)`. Where modules of this symbol have a
//!    rule and the rule applies, the rule writes its result, which is not
//!    rewritten again.
//! 2. Has the symbol a rule that looks at its neighbours, and does the rule
//!    apply? Then its result is rewritten for the generations that are
//!    left.
//! 3. Has the symbol a plain rule? Then its successor is rewritten for the
//!    generations that are left.
//! 4. Else no rule rewrites the symbol, and it stands as it is, a module
//!    with its arguments.

use vstd::prelude::*;
use crate::abs::{Action, ActionView, ParamView};
use crate::action::{
    arguments_of, is_making, ActionError, ActionFactory, ActionResolver, LSystemAction, Making,
    ParamsResolver,
};
use crate::turtle_graphics::TurtleTransformStack;
use perchance::PerchanceContext;
use crate::grammar::{
    symbols_of, Alphabet, AlphabetView, DefaultAlphabetSymbolDefiner, GrammarError, Symbol,
    SymbolDefiner, SymbolView,
};
use crate::rules::RuleTable;
use crate::text::{char_string, find_char, first_where, from_chars, same_text, to_chars};

verus! {

/// The text of an optional string.
pub open spec fn text_of(s: Option<String>) -> Option<Seq<char>> {
    match s {
        Some(s) => Some(s@),
        None => None,
    }
}

/// A rule that replaces one text by another.
#[derive(PartialEq, Eq)]
pub struct ReplacementRule {
    predecessor: String,
    successor: String,
}

impl Clone for ReplacementRule {
    fn clone(&self) -> (r: Self)
        ensures
            r.predecessor() == self.predecessor(),
            r.successor() == self.successor(),
    {
        ReplacementRule { predecessor: self.predecessor.clone(), successor: self.successor.clone() }
    }
}

impl ReplacementRule {
    /// The text that the rule replaces.
    pub closed spec fn predecessor(&self) -> Seq<char> {
        self.predecessor@
    }

    /// The text that the rule puts in its place.
    pub closed spec fn successor(&self) -> Seq<char> {
        self.successor@
    }

    /// What the rule makes of `symbols`: its successor where `symbols` is
    /// its predecessor.
    pub open spec fn applied(&self, symbols: Seq<char>) -> Option<Seq<char>> {
        if symbols == self.predecessor() {
            Some(self.successor())
        } else {
            None
        }
    }

    /// The rule that replaces `predecessor` by `successor`.
    pub fn new(predecessor: String, successor: String) -> (r: Self)
        ensures
            r.predecessor() == predecessor@,
            r.successor() == successor@,
    {
        Self { predecessor, successor }
    }

    /// The successor, where `symbols` is the predecessor.
    pub fn apply(&self, symbols: String) -> (r: Option<String>)
        ensures
            text_of(r) == self.applied(symbols@),
    {
        if same_text(symbols.as_str(), self.predecessor.as_str()) {
            Some(self.successor.clone())
        } else {
            None
        }
    }
}

/// What a rule that looks at the neighbours of a symbol decides.
///
/// A rule is a function of what it is asked: the same symbol at the same
/// place of the same string always gets the same answer.
pub trait ContextSensitiveRuleCB {
    /// The successor of `symbol`, which stands at `index` in `chars`;
    /// `None` where the rule does not apply there.
    closed spec fn successor(&self, symbol: char, index: int, chars: Seq<char>) -> Option<Seq<char>> {
        arbitrary()
    }

    /// Decides on `symbol`, which stands at `index` in `chars`.
    fn call(&self, symbol: char, index: usize, chars: &[char]) -> (r: Option<String>)
        requires
            index < chars@.len(),
            chars@[index as int] == symbol,
        ensures
            text_of(r) == self.successor(symbol, index as int, chars@),
    ;
}

/// A rule for a symbol between two neighbours: it applies where `left`
/// stands right before the symbol and `right` right behind it.
pub struct NeighbourRule {
    pub left: char,
    pub right: char,
    pub successor: String,
}

impl ContextSensitiveRuleCB for NeighbourRule {
    open spec fn successor(&self, symbol: char, index: int, chars: Seq<char>) -> Option<Seq<char>> {
        if 0 < index && index + 1 < chars.len() && chars[index - 1] == self.left && chars[index
            + 1] == self.right {
            Some(self.successor@)
        } else {
            None
        }
    }

    fn call(&self, symbol: char, index: usize, chars: &[char]) -> (r: Option<String>) {
        if 0 < index && chars.len() - index > 1 && chars[index - 1] == self.left && chars[index
            + 1] == self.right {
            Some(self.successor.clone())
        } else {
            None
        }
    }
}

/// A rule that takes the neighbours of a symbol into account.
pub struct ContextSensitiveProductionRule<
    C: ?Sized + ContextSensitiveRuleCB = dyn ContextSensitiveRuleCB,
> {
    rule_cb: Box<C>,
}

impl<C: ?Sized + ContextSensitiveRuleCB> ContextSensitiveProductionRule<C> {
    /// The successor of `symbol`, which stands at `index` in `chars`.
    pub closed spec fn successor(&self, symbol: char, index: int, chars: Seq<char>) -> Option<
        Seq<char>,
    > {
        self.rule_cb.successor(symbol, index, chars)
    }

    /// The rule that decides as `rule_cb` does.
    pub fn new(rule_cb: Box<C>) -> (r: Self)
        ensures
            forall|symbol: char, index: int, chars: Seq<char>|
                #[trigger] r.successor(symbol, index, chars) == rule_cb.successor(
                    symbol,
                    index,
                    chars,
                ),
    {
        Self { rule_cb }
    }

    /// Decides on `symbols`, which stands at `index` in `chars`.
    pub fn apply(&self, symbols: char, index: usize, chars: &[char]) -> (r: Option<String>)
        requires
            index < chars@.len(),
            chars@[index as int] == symbols,
        ensures
            text_of(r) == self.successor(symbols, index as int, chars@),
    {
        self.rule_cb.call(symbols, index, chars)
    }
}

/// What a rule for modules decides.
///
/// A rule is a function of what it is asked.
pub trait ParametricRuleCB {
    /// The text that takes the place of the module `symbol` with the
    /// parameters `params`; `None` where the rule does not apply.
    closed spec fn successor(&self, symbol: Seq<char>, params: Seq<ParamView>) -> Option<Seq<char>> {
        arbitrary()
    }

    /// Decides on the module `symbol` with the parameters `params`.
    fn call(&self, symbol: String, params: ParamsResolver) -> (r: Option<String>)
        ensures
            text_of(r) == self.successor(symbol@, params@),
    ;
}

/// A rule for modules that puts the same text in the place of every
/// module, whatever its parameters are.
pub struct FixedModuleRule {
    pub successor: String,
}

impl ParametricRuleCB for FixedModuleRule {
    open spec fn successor(&self, symbol: Seq<char>, params: Seq<ParamView>) -> Option<Seq<char>> {
        Some(self.successor@)
    }

    fn call(&self, symbol: String, params: ParamsResolver) -> (r: Option<String>) {
        Some(self.successor.clone())
    }
}

/// A rule that replaces a module, by its parameters.
pub struct ParametricProductionRule<M: ?Sized + ParametricRuleCB = dyn ParametricRuleCB> {
    rule_cb: Box<M>,
}

impl<M: ?Sized + ParametricRuleCB> ParametricProductionRule<M> {
    /// The text that takes the place of the module.
    pub closed spec fn successor(&self, symbol: Seq<char>, params: Seq<ParamView>) -> Option<
        Seq<char>,
    > {
        self.rule_cb.successor(symbol, params)
    }

    /// The rule that decides as `rule_cb` does.
    pub fn new(rule_cb: Box<M>) -> (r: Self)
        ensures
            forall|symbol: Seq<char>, params: Seq<ParamView>|
                #[trigger] r.successor(symbol, params) == rule_cb.successor(symbol, params),
    {
        Self { rule_cb }
    }

    /// Decides on the module `symbol` with the parameters `params`.
    pub fn apply(&self, symbol: String, params: ParamsResolver) -> (r: Option<String>)
        ensures
            text_of(r) == self.successor(symbol@, params@),
    {
        self.rule_cb.call(symbol, params)
    }
}

/// Two pieces of output, one after the other; the first failure, where
/// there is one.
pub open spec fn joined(
    first: Result<Seq<char>, GrammarError>,
    rest: Result<Seq<char>, GrammarError>,
) -> Result<Seq<char>, GrammarError> {
    match first {
        Ok(a) => match rest {
            Ok(b) => Ok(a + b),
            Err(e) => Err(e),
        },
        Err(e) => Err(e),
    }
}

/// The views of the bindings of symbols to actions.
pub open spec fn bindings_view(bindings: Seq<(String, Action)>) -> Seq<(Seq<char>, ActionView)> {
    Seq::new(bindings.len(), |i: int| (bindings[i].0@, bindings[i].1@))
}

/// Output that is joined to what follows it can be joined to what stands
/// before it first.
pub proof fn lemma_joined(
    written: Seq<char>,
    piece: Seq<char>,
    rest: Result<Seq<char>, GrammarError>,
)
    ensures
        joined(Ok(written), joined(Ok(piece), rest)) == joined(Ok(written + piece), rest),
        joined(Ok(written), rest) == joined(Ok(written + Seq::<char>::empty()), rest),
{
    assert(written + Seq::<char>::empty() =~= written);
    match rest {
        Ok(r) => {
            assert(written + (piece + r) =~= (written + piece) + r);
        },
        Err(_) => {},
    }
}

/// An L-system: an initial string, rules that rewrite it, the alphabet that
/// its symbols belong to, and the actions that symbols stand for.
pub struct LSystem<
    A: SymbolDefiner = DefaultAlphabetSymbolDefiner,
    C: ?Sized + ContextSensitiveRuleCB = dyn ContextSensitiveRuleCB,
    M: ?Sized + ParametricRuleCB = dyn ParametricRuleCB,
> {
    /// The string that generation starts from.
    pub axiom_text: String,
    generic_rule: RuleTable<ReplacementRule>,
    context_sensitive_rules: RuleTable<ContextSensitiveProductionRule<C>>,
    parametric_production_rules: RuleTable<ParametricProductionRule<M>>,
    alphabet_definer: A,
    /// The name of the L-system.
    pub name: String,
    /// The actions that symbols stand for, in the order of the script.
    pub action_rules: Vec<(String, Action)>,
}

impl<A: SymbolDefiner, C: ?Sized + ContextSensitiveRuleCB, M: ?Sized + ParametricRuleCB> LSystem<
    A,
    C,
    M,
> {
    /// The plain rules, by the text that they replace.
    pub closed spec fn replacements(&self) -> Map<Seq<char>, ReplacementRule> {
        self.generic_rule@
    }

    /// What the plain rules say: for every text that has a rule, the text
    /// that the rule replaces and the text that it puts in its place.
    pub open spec fn rule_texts(&self) -> Map<Seq<char>, (Seq<char>, Seq<char>)> {
        self.replacements().map_values(|rule: ReplacementRule| (rule.predecessor(), rule.successor()))
    }

    /// The rules that look at neighbours, by the symbol that they replace.
    pub closed spec fn context_rules(&self) -> Map<Seq<char>, ContextSensitiveProductionRule<C>> {
        self.context_sensitive_rules@
    }

    /// The rules for modules, by the symbol of the module.
    pub closed spec fn module_rules(&self) -> Map<Seq<char>, ParametricProductionRule<M>> {
        self.parametric_production_rules@
    }

    /// The alphabet of the system.
    pub closed spec fn definer(&self) -> A {
        self.alphabet_definer
    }

    /// The initial string.
    pub closed spec fn start(&self) -> Seq<char> {
        self.axiom_text@
    }

    /// The name of the system.
    pub closed spec fn name_text(&self) -> Seq<char> {
        self.name@
    }

    /// The actions that symbols stand for: trigger and action, in the order
    /// of the script.
    pub closed spec fn actions(&self) -> Seq<(Seq<char>, ActionView)> {
        bindings_view(self.action_rules@)
    }

    /// Where the parameter list that opens at `pos + 1` closes: at the
    /// first `)` behind the `(`, or at the end of `symbols`.
    pub open spec fn module_end(symbols: Seq<char>, pos: int) -> int {
        first_where(symbols, pos + 2, symbols.len() as int, |c: char| c == ')')
    }

    /// Whether the symbol at `pos` is a module: `(` follows it.
    pub open spec fn is_module_at(symbols: Seq<char>, pos: int) -> bool {
        0 <= pos && pos + 1 < symbols.len() && symbols[pos + 1] == '('
    }

    /// Where the symbol at `pos` ends: behind the `)` that closes its
    /// arguments where it is a module, else behind itself. `None` where
    /// the arguments of a module are not closed.
    pub open spec fn symbol_end(symbols: Seq<char>, pos: int) -> Option<int> {
        if Self::is_module_at(symbols, pos) {
            let close = Self::module_end(symbols, pos);
            if pos + 2 <= close < symbols.len() {
                Some(close + 1)
            } else {
                None
            }
        } else {
            Some(pos + 1)
        }
    }

    /// What the rule for modules writes in the place of the module at
    /// `pos`, which ends at `end`. `None` where the symbol is no module,
    /// where modules of the symbol have no rule, and where the rule does not
    /// apply.
    pub open spec fn module_output(&self, symbols: Seq<char>, pos: int, end: int) -> Option<
        Seq<char>,
    > {
        let key = seq![symbols[pos]];
        if Self::is_module_at(symbols, pos) && self.module_rules().contains_key(key) {
            self.module_rules()[key].successor(
                key,
                arguments_of(symbols.subrange(pos + 2, end - 1)),
            )
        } else {
            None
        }
    }

    /// The successor that a rule gives the symbol at `pos`: that of its
    /// rule that looks at neighbours, where it has one that applies; else
    /// that of its plain rule. `None` where no rule rewrites the symbol.
    pub open spec fn successor_at(&self, symbols: Seq<char>, pos: int) -> Option<Seq<char>> {
        let key = seq![symbols[pos]];
        let by_context = if self.context_rules().contains_key(key) {
            self.context_rules()[key].successor(symbols[pos], pos, symbols)
        } else {
            None
        };
        if by_context is Some {
            by_context
        } else if self.replacements().contains_key(key) {
            self.replacements()[key].applied(key)
        } else {
            None
        }
    }

    /// `symbols` after `generations` generations.
    pub open spec fn rewritten(&self, symbols: Seq<char>, generations: nat) -> Result<
        Seq<char>,
        GrammarError,
    >
        decreases generations, symbols.len() + 1,
    {
        if generations == 0 {
            Ok(symbols)
        } else {
            self.rewritten_from(symbols, 0, generations)
        }
    }

    /// What rewriting makes of `symbols[pos..]` within `symbols`, with
    /// `generations` generations left, of which at least one.
    pub open spec fn rewritten_from(&self, symbols: Seq<char>, pos: int, generations: nat) -> Result<
        Seq<char>,
        GrammarError,
    >
        decreases generations, symbols.len() - pos,
    {
        if generations == 0 || pos < 0 || pos >= symbols.len() {
            Ok(Seq::empty())
        } else {
            match Self::symbol_end(symbols, pos) {
                Some(end) => {
                    let rest = self.rewritten_from(symbols, end, generations);
                    match self.module_output(symbols, pos, end) {
                        Some(text) => joined(Ok(text), rest),
                        None => match self.successor_at(symbols, pos) {
                            Some(successor) => joined(
                                self.rewritten(successor, (generations - 1) as nat),
                                rest,
                            ),
                            None => joined(Ok(symbols.subrange(pos, end)), rest),
                        },
                    }
                },
                None => Err(GrammarError::UnclosedModule { at: pos as usize }),
            }
        }
    }

    /// What `generate` returns: the symbols of the initial string after
    /// `generations` generations.
    pub open spec fn generated(&self, generations: u8) -> Result<AlphabetView, GrammarError> {
        match self.rewritten(self.start(), generations as nat) {
            Ok(text) => match symbols_of(self.definer(), text) {
                Ok(symbols) => Ok(AlphabetView { symbols, generation: generations }),
                Err(e) => Err(e),
            },
            Err(e) => Err(e),
        }
    }

    /// The symbols of the initial string after `generations` generations.
    ///
    /// It fails where a parameter list is not closed, and where a character
    /// of the result stands for no symbol of the alphabet.
    pub fn generate(&self, generations: u8) -> (r: Result<Alphabet, GrammarError>)
        ensures
            match self.generated(generations) {
                Ok(alphabet) => r is Ok && r->Ok_0@ == alphabet,
                Err(e) => r is Err && r->Err_0 == e,
            },
    {
        let mut result = String::new();
        self.apply_rules_recursive(self.axiom_text.as_str(), &mut result, generations)?;
        assert(result@ =~= self.rewritten(self.start(), generations as nat)->Ok_0);
        Alphabet::from_string(result, generations, &self.alphabet_definer)
    }

    /// Reads the arguments of the module whose symbol stands at
    /// `symbol_index`, and moves `symbol_index` behind the `)` that closes
    /// them. `None`, with `symbol_index` as it was, where no `)` follows.
    fn recursively_iterate_params(symbols: &[char], symbol_index: &mut usize) -> (r: Option<String>)
        requires
            Self::is_module_at(symbols@, *old(symbol_index) as int),
        ensures
            match r {
                Some(params) => {
                    &&& Self::symbol_end(symbols@, *old(symbol_index) as int) == Some(
                        *final(symbol_index) as int,
                    )
                    &&& *old(symbol_index) + 3 <= *final(symbol_index) <= symbols@.len()
                    &&& params@ == symbols@.subrange(
                        *old(symbol_index) + 2,
                        *final(symbol_index) - 1,
                    )
                },
                None => Self::symbol_end(symbols@, *old(symbol_index) as int) is None
                    && *final(symbol_index) == *old(symbol_index),
            },
    {
        let count = symbols.len();
        let first = *symbol_index + 2;
        let close = find_char(symbols, first, count, ')');
        if close < count {
            *symbol_index = close + 1;
            Some(from_chars(symbols, first, close))
        } else {
            None
        }
    }

    /// What the rule for modules writes in the place of the module whose
    /// symbol is `key` and whose arguments are `args`.
    fn apply_module_rule(&self, key: &str, args: String) -> (r: Option<String>)
        ensures
            text_of(r) == if self.module_rules().contains_key(key@) {
                self.module_rules()[key@].successor(key@, arguments_of(args@))
            } else {
                None
            },
    {
        match self.parametric_production_rules.get(key) {
            Some(rule) => rule.apply(key.to_owned(), ParamsResolver::from_string(args)),
            None => None,
        }
    }

    /// The successor that a rule gives the symbol at `symbol_index`.
    fn apply_symbol_rules(&self, chars: &[char], symbol_index: usize) -> (r: Option<String>)
        requires
            symbol_index < chars@.len(),
        ensures
            text_of(r) == self.successor_at(chars@, symbol_index as int),
    {
        let symbol = chars[symbol_index];
        let key = char_string(symbol);
        // A rule that looks at the neighbours comes first.
        if let Some(rule) = self.context_sensitive_rules.get(key.as_str()) {
            if let Some(result) = rule.apply(symbol, symbol_index, chars) {
                return Some(result);
            }
        }
        match self.generic_rule.get(key.as_str()) {
            Some(rule) => rule.apply(key),
            None => None,
        }
    }

    /// Appends to `string_result` what `generations_left` generations make
    /// of `symbols`. Where it fails, what stood in `string_result` still
    /// stands at its start.
    fn apply_rules_recursive(
        &self,
        symbols: &str,
        string_result: &mut String,
        generations_left: u8,
    ) -> (r: Result<(), GrammarError>)
        ensures
            match self.rewritten(symbols@, generations_left as nat) {
                Ok(output) => r is Ok && final(string_result)@ == old(string_result)@ + output,
                Err(e) => r is Err && r->Err_0 == e,
            },
            old(string_result)@.is_prefix_of(final(string_result)@),
        decreases generations_left,
    {
        // With no generation left the symbols stand as they are.
        if generations_left == 0 {
            string_result.append(symbols);
            return Ok(());
        }
        let chars = to_chars(symbols);
        let count = chars.len();
        let ghost generations = generations_left as nat;
        let ghost written: Seq<char> = Seq::empty();
        let mut symbol_index: usize = 0;
        assert(string_result@ =~= old(string_result)@ + written);
        while symbol_index < count
            invariant
                chars@ == symbols@,
                count == chars@.len(),
                symbol_index <= count,
                generations == generations_left as nat,
                generations_left > 0,
                string_result@ == old(string_result)@ + written,
                self.rewritten_from(chars@, 0, generations) == joined(
                    Ok(written),
                    self.rewritten_from(chars@, symbol_index as int, generations),
                ),
            decreases count - symbol_index,
        {
            let start = symbol_index;
            let key = char_string(chars[start]);
            // Is the symbol the start of a module?
            let module = count - start > 1 && chars[start + 1] == '(';
            let mut replaced: Option<String> = None;
            if module {
                match Self::recursively_iterate_params(chars.as_slice(), &mut symbol_index) {
                    Some(args) => {
                        replaced = self.apply_module_rule(key.as_str(), args);
                    },
                    None => {
                        return Err(GrammarError::UnclosedModule { at: start });
                    },
                }
            } else {
                symbol_index = start + 1;
            }
            let ghost rest = self.rewritten_from(chars@, symbol_index as int, generations);
            let ghost before = string_result@;
            let ghost piece: Seq<char>;
            match replaced {
                Some(result) => {
                    // The result of a rule for modules is not rewritten.
                    string_result.append(result.as_str());
                    proof {
                        piece = result@;
                    }
                },
                None => match self.apply_symbol_rules(chars.as_slice(), start) {
                    Some(result) => {
                        match self.apply_rules_recursive(
                            result.as_str(),
                            string_result,
                            generations_left - 1,
                        ) {
                            Ok(()) => {},
                            Err(e) => {
                                return Err(e);
                            },
                        }
                        proof {
                            piece = self.rewritten(result@, (generations - 1) as nat)->Ok_0;
                        }
                    },
                    None => {
                        // No rule rewrites the symbol: it stands as it is.
                        let own = from_chars(chars.as_slice(), start, symbol_index);
                        string_result.append(own.as_str());
                        proof {
                            piece = own@;
                        }
                    },
                },
            }
            proof {
                lemma_joined(written, piece, rest);
                assert(string_result@ =~= old(string_result)@ + (written + piece));
                written = written + piece;
            }
        }
        proof {
            assert(written + Seq::<char>::empty() =~= written);
        }
        Ok(())
    }

    /// The place of the first binding from `from` on whose trigger is
    /// written with the one character `letter`.
    pub open spec fn binding_from(
        bindings: Seq<(Seq<char>, ActionView)>,
        from: int,
        letter: char,
    ) -> Option<int>
        decreases bindings.len() - from,
    {
        if from < 0 || from >= bindings.len() {
            None
        } else if bindings[from].0 == seq![letter] {
            Some(from)
        } else {
            Self::binding_from(bindings, from + 1, letter)
        }
    }

    /// The place of the binding of `symbol`: the first whose trigger is
    /// the character of the symbol. A module has no binding.
    pub open spec fn binding_of(&self, symbol: SymbolView) -> Option<int> {
        match symbol {
            SymbolView::Module(_, _) => None,
            _ => Self::binding_from(self.actions(), 0, symbol.letter()),
        }
    }

    /// The action that `symbol` stands for.
    pub fn action_for(&self, symbol: &Symbol) -> (r: Option<&Action>)
        ensures
            match r {
                Some(action) => self.binding_of(symbol@) is Some && action@
                    == self.actions()[self.binding_of(symbol@)->0].1,
                None => self.binding_of(symbol@) is None,
            },
    {
        let letter = match symbol {
            Symbol::Variable(c) => char_string(*c),
            Symbol::Constant(c) => char_string(*c),
            Symbol::Module(_, _) => {
                return None;
            },
        };
        let mut i: usize = 0;
        while i < self.action_rules.len()
            invariant
                i <= self.action_rules@.len(),
                !(symbol@ is Module),
                letter@ == seq![symbol@.letter()],
                Self::binding_from(self.actions(), 0, symbol@.letter()) == Self::binding_from(
                    self.actions(),
                    i as int,
                    symbol@.letter(),
                ),
            decreases self.action_rules@.len() - i,
        {
            assert(self.actions()[i as int] == (
                self.action_rules@[i as int].0@,
                self.action_rules@[i as int].1@,
            ));
            if same_text(self.action_rules[i].0.as_str(), letter.as_str()) {
                return Some(&self.action_rules[i].1);
            }
            i += 1;
        }
        None
    }

    /// What is made at step `at` of a run over `symbols`: what
    /// `action_resolver` makes of the action that the symbol there is bound
    /// to, for that symbol; nothing where the symbol has no binding.
    pub open spec fn made_at<T, F: ?Sized + ActionFactory<T>>(
        &self,
        action_resolver: &ActionResolver<T, F>,
        symbols: Seq<SymbolView>,
        at: int,
    ) -> Making {
        match self.binding_of(symbols[at]) {
            Some(bound) => action_resolver.resolved(symbols[at], self.actions()[bound].1),
            None => Making::Nothing,
        }
    }

    /// Whether the steps before `at` are quiet: none of their symbols is a
    /// module, and nothing is made at any of them.
    pub open spec fn quiet_before<T, F: ?Sized + ActionFactory<T>>(
        &self,
        action_resolver: &ActionResolver<T, F>,
        symbols: Seq<SymbolView>,
        at: int,
    ) -> bool {
        forall|i: int|
            #![trigger symbols[i]]
            0 <= i < at ==> !(symbols[i] is Module) && self.made_at(action_resolver, symbols, i)
                is Nothing
    }

    /// Whether the step `at` of a run, for the symbol `symbol`, may turn
    /// the context `before` into `after` and return `r`.
    ///
    /// A module stops the run and leaves the context as it is. Else the
    /// action that the symbol is bound to is resolved, and what comes back
    /// is carried out ([`carried_out`]); a symbol without binding only has
    /// the pose appended to the snapshots.
    pub open spec fn stepped<T, F: ?Sized + ActionFactory<T>>(
        &self,
        action_resolver: &ActionResolver<T, F>,
        symbol: SymbolView,
        at: usize,
        before: ExecuteContext<T>,
        after: ExecuteContext<T>,
        r: Result<(), RunError>,
    ) -> bool {
        if symbol is Module {
            r == Err::<(), RunError>(RunError::Module { at }) && after == before
        } else {
            match self.binding_of(symbol) {
                Some(bound) => exists|made: Result<Option<Box<dyn LSystemAction<T>>>, ActionError>|
                    {
                        &&& #[trigger] action_resolver.resolves(
                            symbol,
                            self.actions()[bound].1,
                            made,
                        )
                        &&& is_making(
                            made,
                            action_resolver.resolved(symbol, self.actions()[bound].1),
                        )
                        &&& carried_out(made, symbol, at, before, after, r)
                    },
                None => r == Ok::<(), RunError>(()) && snapshotted(before, after),
            }
        }
    }

    /// Whether a run over `symbols` from the step `from` on, with the
    /// context `before`, may return `r`: the steps are taken in order, each
    /// on the context that the step before it left, up to the first that
    /// fails.
    pub open spec fn runs<T, F: ?Sized + ActionFactory<T>>(
        &self,
        action_resolver: &ActionResolver<T, F>,
        symbols: Seq<SymbolView>,
        from: int,
        before: ExecuteContext<T>,
        r: Result<ExecuteContext<T>, RunError>,
    ) -> bool
        decreases symbols.len() - from,
    {
        if from < 0 || from >= symbols.len() {
            r == Ok::<ExecuteContext<T>, RunError>(before)
        } else {
            exists|after: ExecuteContext<T>, result: Result<(), RunError>|
                {
                    &&& #[trigger] self.stepped(
                        action_resolver,
                        symbols[from],
                        from as usize,
                        before,
                        after,
                        result,
                    )
                    &&& match result {
                        Ok(()) => self.runs(action_resolver, symbols, from + 1, after, r),
                        Err(e) => r == Err::<ExecuteContext<T>, RunError>(e),
                    }
                }
        }
    }

    /// Takes the step `at` of a run: lets the action that `symbol` stands
    /// for act on `context`, and appends the pose to the snapshots.
    pub fn step<T: Copy, F: ?Sized + ActionFactory<T>>(
        &self,
        action_resolver: &ActionResolver<T, F>,
        symbol: &Symbol,
        at: usize,
        context: &mut ExecuteContext<T>,
    ) -> (r: Result<(), RunError>)
        ensures
            self.stepped(action_resolver, symbol@, at, *old(context), *final(context), r),
    {
        match symbol {
            Symbol::Module(_, _) => {
                return Err(RunError::Module { at });
            },
            _ => {},
        }
        match self.action_for(symbol) {
            Some(by) => {
                let made = action_resolver.resolve(symbol, by);
                context.carry_out(made, symbol, at)
            },
            None => {
                context.snapshot();
                Ok(())
            },
        }
    }

    /// Walks through `alphabet` with a context that starts with the pose
    /// `turtle`: takes the steps in order ([`LSystem::step`]). At every
    /// symbol that stands for an action that `action_resolver` can make, the
    /// action acts on the context; after every symbol the pose is appended
    /// to the snapshots.
    ///
    /// A module stops the run, and so do an action that cannot be made and
    /// an action that fails.
    pub fn run<T: Copy, F: ?Sized + ActionFactory<T>>(
        &self,
        action_resolver: &ActionResolver<T, F>,
        alphabet: &Alphabet,
        turtle: T,
    ) -> (r: Result<ExecuteContext<T>, RunError>)
        ensures
            // The steps in order, from a fresh context.
            exists|start: ExecuteContext<T>|
                fresh(turtle, start) && #[trigger] self.runs(
                    action_resolver,
                    alphabet@.symbols,
                    0,
                    start,
                    r,
                ),
            // A run without module in which nothing is made changes nothing
            // but the snapshots, of which there is one for every step.
            self.quiet_before(action_resolver, alphabet@.symbols, alphabet@.symbols.len() as int)
                ==> {
                &&& r is Ok
                &&& r->Ok_0.turtle == turtle
                &&& r->Ok_0.rng == generator_of(RANDOM_SEED)
                &&& r->Ok_0.transform_stack@ == Seq::<T>::empty()
                &&& r->Ok_0.snapshot@ == Seq::new(
                    alphabet@.symbols.len(),
                    |i: int| ExecuteContextSnapshot { turtle, is_leave: false },
                )
            },
            // A module behind quiet steps stops the run.
            forall|at: int|
                #![trigger alphabet@.symbols[at]]
                0 <= at < alphabet@.symbols.len() && self.quiet_before(
                    action_resolver,
                    alphabet@.symbols,
                    at,
                ) && alphabet@.symbols[at] is Module ==> r == Err::<ExecuteContext<T>, RunError>(
                    RunError::Module { at: at as usize },
                ),
            // An action that cannot be made behind quiet steps stops the run.
            forall|at: int|
                #![trigger alphabet@.symbols[at]]
                0 <= at < alphabet@.symbols.len() && self.quiet_before(
                    action_resolver,
                    alphabet@.symbols,
                    at,
                ) && !(alphabet@.symbols[at] is Module) && self.made_at(
                    action_resolver,
                    alphabet@.symbols,
                    at,
                ) is Failed ==> r == Err::<ExecuteContext<T>, RunError>(
                    RunError::Action {
                        at: at as usize,
                        error: self.made_at(action_resolver, alphabet@.symbols, at)->Failed_0,
                    },
                ),
            // Whatever the actions did:
            match r {
                Ok(context) => {
                    &&& forall|i: int|
                        #![trigger alphabet@.symbols[i]]
                        0 <= i < alphabet@.symbols.len() ==> !(alphabet@.symbols[i] is Module)
                            && !(self.made_at(action_resolver, alphabet@.symbols, i) is Failed)
                    &&& alphabet@.symbols.len() > 0 ==> context.snapshot@.len() > 0
                        && context.snapshot@.last() == (ExecuteContextSnapshot {
                        turtle: context.turtle,
                        is_leave: false,
                    })
                },
                Err(RunError::Module { at }) => {
                    &&& at < alphabet@.symbols.len()
                    &&& alphabet@.symbols[at as int] is Module
                    &&& forall|i: int|
                        #![trigger alphabet@.symbols[i]]
                        0 <= i < at ==> !(alphabet@.symbols[i] is Module) && !(self.made_at(
                            action_resolver,
                            alphabet@.symbols,
                            i,
                        ) is Failed)
                },
                Err(RunError::Action { at, error }) => {
                    &&& at < alphabet@.symbols.len()
                    &&& !(alphabet@.symbols[at as int] is Module)
                    &&& match self.made_at(action_resolver, alphabet@.symbols, at as int) {
                        Making::Made => true,
                        Making::Nothing => false,
                        Making::Failed(e) => error == e,
                    }
                    &&& forall|i: int|
                        #![trigger alphabet@.symbols[i]]
                        0 <= i < at ==> !(alphabet@.symbols[i] is Module) && !(self.made_at(
                            action_resolver,
                            alphabet@.symbols,
                            i,
                        ) is Failed)
                },
            },
    {
        let mut context = ExecuteContext::new(turtle);
        let ghost start = context;
        let ghost symbols = alphabet@.symbols;
        let mut step: usize = 0;
        assert(context.snapshot@ =~= Seq::new(
            0,
            |i: int| ExecuteContextSnapshot { turtle, is_leave: false },
        ));
        while step < alphabet.symbols.len()
            invariant
                symbols == alphabet@.symbols,
                step <= alphabet.symbols@.len(),
                symbols.len() == alphabet.symbols@.len(),
                fresh(turtle, start),
                forall|result: Result<ExecuteContext<T>, RunError>|
                    #[trigger] self.runs(action_resolver, symbols, step as int, context, result)
                        ==> self.runs(action_resolver, symbols, 0, start, result),
                forall|i: int|
                    #![trigger symbols[i]]
                    0 <= i < step ==> !(symbols[i] is Module) && !(self.made_at(
                        action_resolver,
                        symbols,
                        i,
                    ) is Failed),
                step > 0 ==> context.snapshot@.len() > 0 && context.snapshot@.last() == (
                ExecuteContextSnapshot { turtle: context.turtle, is_leave: false }),
                self.quiet_before(action_resolver, symbols, step as int) ==> {
                    &&& context.turtle == turtle
                    &&& context.rng == generator_of(RANDOM_SEED)
                    &&& context.transform_stack@ == Seq::<T>::empty()
                    &&& context.snapshot@ == Seq::new(
                        step as nat,
                        |i: int| ExecuteContextSnapshot { turtle, is_leave: false },
                    )
                },
            decreases alphabet.symbols@.len() - step,
        {
            let ghost before = context;
            let token = &alphabet.symbols[step];
            assert(token@ == symbols[step as int]);
            let taken = self.step(action_resolver, token, step, &mut context);
            let ghost from = step as int;
            assert(self.stepped(
                action_resolver,
                symbols[from],
                from as usize,
                before,
                context,
                taken,
            ));
            match taken {
                Ok(()) => {
                    // What is returned from the next step on is returned
                    // from the start.
                    assert forall|result: Result<ExecuteContext<T>, RunError>| #[trigger]
                        self.runs(
                            action_resolver,
                            symbols,
                            from + 1,
                            context,
                            result,
                        ) implies self.runs(action_resolver, symbols, 0, start, result) by {
                        assert(self.runs(action_resolver, symbols, from, before, result));
                    }
                },
                Err(e) => {
                    assert(self.runs(
                        action_resolver,
                        symbols,
                        from,
                        before,
                        Err::<ExecuteContext<T>, RunError>(e),
                    ));
                    return Err(e);
                },
            }
            proof {
                if self.quiet_before(action_resolver, symbols, step + 1) {
                    assert(self.made_at(action_resolver, symbols, step as int) is Nothing);
                    assert(self.quiet_before(action_resolver, symbols, step as int));
                    assert(context.snapshot@ =~= Seq::new(
                        (step + 1) as nat,
                        |i: int| ExecuteContextSnapshot { turtle, is_leave: false },
                    ));
                }
            }
            step += 1;
        }
        assert(self.runs(
            action_resolver,
            symbols,
            step as int,
            context,
            Ok::<ExecuteContext<T>, RunError>(context),
        ));
        Ok(context)
    }

    /// Whether what the action of `symbol` does is decided by the context
    /// that it acts on: whichever actions resolving hands out for the
    /// symbol, on contexts that hold the same they return the same and
    /// leave contexts that hold the same.
    pub open spec fn acting_decided<T, F: ?Sized + ActionFactory<T>>(
        &self,
        action_resolver: &ActionResolver<T, F>,
        symbol: SymbolView,
    ) -> bool {
        match self.binding_of(symbol) {
            Some(bound) => forall|
                first: Result<Option<Box<dyn LSystemAction<T>>>, ActionError>,
                second: Result<Option<Box<dyn LSystemAction<T>>>, ActionError>,
                before: ExecuteContext<T>,
                again: ExecuteContext<T>,
                after: ExecuteContext<T>,
                after_again: ExecuteContext<T>,
                r: Result<(), ActionError>,
                r_again: Result<(), ActionError>,
            |
                #![trigger
                    may_act(first, symbol, before, after, r),
                    may_act(second, symbol, again, after_again, r_again)
                ]
                action_resolver.resolves(symbol, self.actions()[bound].1, first)
                    && action_resolver.resolves(symbol, self.actions()[bound].1, second)
                    && alike(before, again) && may_act(first, symbol, before, after, r)
                    && may_act(second, symbol, again, after_again, r_again) ==> r == r_again
                    && alike(after, after_again),
            None => true,
        }
    }

    /// A step that is taken twice on contexts that hold the same returns
    /// the same and leaves contexts that hold the same, where what the
    /// action of its symbol does is decided by the context.
    pub proof fn lemma_step_repeats<T, F: ?Sized + ActionFactory<T>>(
        &self,
        action_resolver: &ActionResolver<T, F>,
        symbol: SymbolView,
        at: usize,
        before: ExecuteContext<T>,
        again: ExecuteContext<T>,
        after: ExecuteContext<T>,
        after_again: ExecuteContext<T>,
        r: Result<(), RunError>,
        r_again: Result<(), RunError>,
    )
        requires
            self.acting_decided(action_resolver, symbol),
            alike(before, again),
            self.stepped(action_resolver, symbol, at, before, after, r),
            self.stepped(action_resolver, symbol, at, again, after_again, r_again),
        ensures
            r == r_again,
            alike(after, after_again),
    {
        if !(symbol is Module) {
            match self.binding_of(symbol) {
                Some(bound) => {
                    let action = self.actions()[bound].1;
                    let first = choose|made: Result<Option<Box<dyn LSystemAction<T>>>, ActionError>|
                        {
                            &&& #[trigger] action_resolver.resolves(symbol, action, made)
                            &&& is_making(made, action_resolver.resolved(symbol, action))
                            &&& carried_out(made, symbol, at, before, after, r)
                        };
                    let second = choose|
                        made: Result<Option<Box<dyn LSystemAction<T>>>, ActionError>,
                    |
                        {
                            &&& #[trigger] action_resolver.resolves(symbol, action, made)
                            &&& is_making(made, action_resolver.resolved(symbol, action))
                            &&& carried_out(made, symbol, at, again, after_again, r_again)
                        };
                    match action_resolver.resolved(symbol, action) {
                        Making::Made => {
                            let (acted, result) = choose|
                                acted: ExecuteContext<T>,
                                result: Result<(), ActionError>,
                            |
                                {
                                    &&& #[trigger] may_act(first, symbol, before, acted, result)
                                    &&& match result {
                                        Ok(()) => r == Ok::<(), RunError>(()) && snapshotted(acted, after),
                                        Err(error) => r == Err::<(), RunError>(
                                            RunError::Action { at, error },
                                        ) && after == acted,
                                    }
                                };
                            let (acted_again, result_again) = choose|
                                acted: ExecuteContext<T>,
                                result: Result<(), ActionError>,
                            |
                                {
                                    &&& #[trigger] may_act(second, symbol, again, acted, result)
                                    &&& match result {
                                        Ok(()) => r_again == Ok::<(), RunError>(()) && snapshotted(acted, after_again),
                                        Err(error) => r_again == Err::<(), RunError>(
                                            RunError::Action { at, error },
                                        ) && after_again == acted,
                                    }
                                };
                            assert(result == result_again && alike(acted, acted_again));
                        },
                        _ => {},
                    }
                },
                None => {},
            }
        }
    }

    /// A run that is repeated ends as it ended before: from contexts that
    /// hold the same, over the same symbols, two runs end alike, where what
    /// the action of every symbol does is decided by the context.
    pub proof fn lemma_runs_repeat<T, F: ?Sized + ActionFactory<T>>(
        &self,
        action_resolver: &ActionResolver<T, F>,
        symbols: Seq<SymbolView>,
        from: int,
        before: ExecuteContext<T>,
        again: ExecuteContext<T>,
        r: Result<ExecuteContext<T>, RunError>,
        r_again: Result<ExecuteContext<T>, RunError>,
    )
        requires
            0 <= from <= symbols.len(),
            forall|i: int|
                0 <= i < symbols.len() ==> self.acting_decided(
                    action_resolver,
                    #[trigger] symbols[i],
                ),
            alike(before, again),
            self.runs(action_resolver, symbols, from, before, r),
            self.runs(action_resolver, symbols, from, again, r_again),
        ensures
            ended_alike(r, r_again),
        decreases symbols.len() - from,
    {
        if from < symbols.len() {
            let (after, result) = choose|after: ExecuteContext<T>, result: Result<(), RunError>|
                {
                    &&& #[trigger] self.stepped(
                        action_resolver,
                        symbols[from],
                        from as usize,
                        before,
                        after,
                        result,
                    )
                    &&& match result {
                        Ok(()) => self.runs(action_resolver, symbols, from + 1, after, r),
                        Err(e) => r == Err::<ExecuteContext<T>, RunError>(e),
                    }
                };
            let (after_again, result_again) = choose|
                after: ExecuteContext<T>,
                result: Result<(), RunError>,
            |
                {
                    &&& #[trigger] self.stepped(
                        action_resolver,
                        symbols[from],
                        from as usize,
                        again,
                        after,
                        result,
                    )
                    &&& match result {
                        Ok(()) => self.runs(action_resolver, symbols, from + 1, after, r_again),
                        Err(e) => r_again == Err::<ExecuteContext<T>, RunError>(e),
                    }
                };
            self.lemma_step_repeats(
                action_resolver,
                symbols[from],
                from as usize,
                before,
                again,
                after,
                after_again,
                result,
                result_again,
            );
            if result is Ok {
                self.lemma_runs_repeat(
                    action_resolver,
                    symbols,
                    from + 1,
                    after,
                    after_again,
                    r,
                    r_again,
                );
            }
        }
    }

    /// Two runs with the same pose to start with end alike: a run is
    /// decided by the system, the registry, the symbols and the first pose,
    /// where what the action of every symbol does is decided by the context,
    /// of which the generator is a part.
    pub proof fn lemma_run_repeats<T, F: ?Sized + ActionFactory<T>>(
        &self,
        action_resolver: &ActionResolver<T, F>,
        symbols: Seq<SymbolView>,
        turtle: T,
        start: ExecuteContext<T>,
        start_again: ExecuteContext<T>,
        r: Result<ExecuteContext<T>, RunError>,
        r_again: Result<ExecuteContext<T>, RunError>,
    )
        requires
            forall|i: int|
                0 <= i < symbols.len() ==> self.acting_decided(
                    action_resolver,
                    #[trigger] symbols[i],
                ),
            fresh(turtle, start),
            fresh(turtle, start_again),
            self.runs(action_resolver, symbols, 0, start, r),
            self.runs(action_resolver, symbols, 0, start_again, r_again),
        ensures
            ended_alike(r, r_again),
    {
        self.lemma_runs_repeat(action_resolver, symbols, 0, start, start_again, r, r_again);
    }

    /// With no generation the initial string is not rewritten: `generate`
    /// returns its symbols, or fails on its first character that stands
    /// for no symbol.
    pub proof fn lemma_no_generation(&self)
        ensures
            self.rewritten(self.start(), 0) == Ok::<Seq<char>, GrammarError>(self.start()),
            self.generated(0) == match symbols_of(self.definer(), self.start()) {
                Ok(symbols) => Ok::<AlphabetView, GrammarError>(
                    AlphabetView { symbols, generation: 0 },
                ),
                Err(e) => Err(e),
            },
    {
    }

    /// What a plain rule makes of the symbol `c` in one generation: the
    /// successor of its rule, or the symbol itself where it has no rule.
    pub open spec fn production(&self, c: char) -> Seq<char> {
        let key = seq![c];
        let successor = if self.replacements().contains_key(key) {
            self.replacements()[key].applied(key)
        } else {
            None
        };
        match successor {
            Some(successor) => successor,
            None => key,
        }
    }

    /// One generation of rewriting all symbols of `symbols` at once.
    pub open spec fn rewritten_once(&self, symbols: Seq<char>) -> Seq<char>
        decreases symbols.len(),
    {
        if symbols.len() == 0 {
            Seq::empty()
        } else {
            self.rewritten_once(symbols.drop_last()) + self.production(symbols.last())
        }
    }

    /// `generations` generations of rewriting all symbols at once.
    pub open spec fn rewritten_at_once(&self, symbols: Seq<char>, generations: nat) -> Seq<char>
        decreases generations,
    {
        if generations == 0 {
            symbols
        } else {
            self.rewritten_at_once(self.rewritten_once(symbols), (generations - 1) as nat)
        }
    }

    /// Whether the system has plain rules only, none of which writes the
    /// `(` that opens the parameters of a module.
    pub open spec fn is_context_free(&self) -> bool {
        &&& self.context_rules().dom() == Set::<Seq<char>>::empty()
        &&& forall|c: char| c != '(' ==> !(#[trigger] self.production(c)).contains('(')
    }

    /// Rewriting two strings at once and one after the other is the same.
    pub proof fn lemma_once_of_two(&self, a: Seq<char>, b: Seq<char>)
        ensures
            self.rewritten_once(a + b) == self.rewritten_once(a) + self.rewritten_once(b),
        decreases b.len(),
    {
        if b.len() == 0 {
            assert(a + b =~= a);
            assert(self.rewritten_once(a) + Seq::<char>::empty() =~= self.rewritten_once(a));
        } else {
            assert((a + b).drop_last() =~= a + b.drop_last());
            assert((a + b).last() == b.last());
            self.lemma_once_of_two(a, b.drop_last());
            assert((self.rewritten_once(a) + self.rewritten_once(b.drop_last()))
                + self.production(b.last()) =~= self.rewritten_once(a) + (self.rewritten_once(
                b.drop_last(),
            ) + self.production(b.last())));
        }
    }

    /// Rewriting two strings at once for some generations and one after the
    /// other is the same.
    pub proof fn lemma_at_once_of_two(&self, a: Seq<char>, b: Seq<char>, generations: nat)
        ensures
            self.rewritten_at_once(a + b, generations) == self.rewritten_at_once(a, generations)
                + self.rewritten_at_once(b, generations),
        decreases generations,
    {
        if generations > 0 {
            self.lemma_once_of_two(a, b);
            self.lemma_at_once_of_two(
                self.rewritten_once(a),
                self.rewritten_once(b),
                (generations - 1) as nat,
            );
        }
    }

    /// In a context-free system, what is left of a string without `(` from
    /// `pos` on is rewritten symbol by symbol as it is rewritten at once.
    pub proof fn lemma_context_free_from(&self, symbols: Seq<char>, pos: int, generations: nat)
        requires
            self.is_context_free(),
            !symbols.contains('('),
            0 <= pos <= symbols.len(),
            generations > 0,
        ensures
            self.rewritten_from(symbols, pos, generations) == Ok::<Seq<char>, GrammarError>(
                self.rewritten_at_once(symbols.subrange(pos, symbols.len() as int), generations),
            ),
        decreases generations, 0nat, symbols.len() - pos,
    {
        let n = symbols.len() as int;
        let rest = symbols.subrange(pos, n);
        if pos >= n {
            assert(rest =~= Seq::<char>::empty());
            self.lemma_at_once_of_nothing(generations);
        } else {
            let c = symbols[pos];
            let key = seq![c];
            let before = (generations - 1) as nat;
            assert(symbols.contains(c));
            if pos + 1 < n {
                assert(symbols.contains(symbols[pos + 1]));
            }
            assert(!Self::is_module_at(symbols, pos));
            assert(!self.context_rules().contains_key(key));
            assert(symbols.subrange(pos, pos + 1) =~= key);
            self.lemma_context_free_from(symbols, pos + 1, generations);
            let tail = symbols.subrange(pos + 1, n);
            assert(rest =~= key + tail);
            self.lemma_at_once_of_two(key, tail, generations);
            // One symbol at once: its production, rewritten for the
            // generations before.
            self.lemma_once_of_one(c);
            let piece = self.production(c);
            assert(self.rewritten_at_once(key, generations) == self.rewritten_at_once(
                piece,
                before,
            ));
            match self.successor_at(symbols, pos) {
                Some(successor) => {
                    self.lemma_context_free(successor, before);
                },
                None => {
                    self.lemma_at_once_of_itself(c, before);
                },
            }
        }
    }

    /// A context-free system rewrites as if all symbols were rewritten at
    /// once, generation by generation: rewriting a symbol's successor right
    /// away for the generations that are left makes no difference.
    pub proof fn lemma_context_free(&self, symbols: Seq<char>, generations: nat)
        requires
            self.is_context_free(),
            !symbols.contains('('),
        ensures
            self.rewritten(symbols, generations) == Ok::<Seq<char>, GrammarError>(
                self.rewritten_at_once(symbols, generations),
            ),
        decreases generations, 1nat,
    {
        if generations > 0 {
            self.lemma_context_free_from(symbols, 0, generations);
            assert(symbols.subrange(0, symbols.len() as int) =~= symbols);
        }
    }

    /// One symbol is rewritten to its production.
    pub proof fn lemma_once_of_one(&self, c: char)
        ensures
            self.rewritten_once(seq![c]) == self.production(c),
    {
        let key = seq![c];
        assert(key.len() == 1);
        assert(key.last() == c);
        assert(key.drop_last().len() == 0);
        assert(self.rewritten_once(key.drop_last()) == Seq::<char>::empty());
        assert(Seq::<char>::empty() + self.production(c) =~= self.production(c));
    }

    /// Nothing stays nothing.
    pub proof fn lemma_at_once_of_nothing(&self, generations: nat)
        ensures
            self.rewritten_at_once(Seq::empty(), generations) == Seq::<char>::empty(),
        decreases generations,
    {
        if generations > 0 {
            self.lemma_at_once_of_nothing((generations - 1) as nat);
        }
    }

    /// A symbol that no rule rewrites stays as it is.
    pub proof fn lemma_at_once_of_itself(&self, c: char, generations: nat)
        requires
            self.production(c) == seq![c],
        ensures
            self.rewritten_at_once(seq![c], generations) == seq![c],
        decreases generations,
    {
        if generations > 0 {
            self.lemma_once_of_one(c);
            self.lemma_at_once_of_itself(c, (generations - 1) as nat);
        }
    }

    /// Names the L-system.
    pub fn set_name(&mut self, name: String)
        ensures
            final(self).name_text() == name@,
            final(self).actions() == old(self).actions(),
            final(self).replacements() == old(self).replacements(),
            final(self).context_rules() == old(self).context_rules(),
            final(self).module_rules() == old(self).module_rules(),
            final(self).start() == old(self).start(),
            final(self).definer() == old(self).definer(),
    {
        self.name = name;
    }

    /// Says which actions the symbols stand for.
    pub fn set_action_rules(&mut self, action_rules: Vec<(String, Action)>)
        ensures
            final(self).actions() == bindings_view(action_rules@),
            final(self).name_text() == old(self).name_text(),
            final(self).replacements() == old(self).replacements(),
            final(self).context_rules() == old(self).context_rules(),
            final(self).module_rules() == old(self).module_rules(),
            final(self).start() == old(self).start(),
            final(self).definer() == old(self).definer(),
    {
        self.action_rules = action_rules;
    }

    /// Gives `predecessor` the plain rule that replaces it by `successor`.
    pub fn add_rule(&mut self, predecessor: &str, successor: &str)
        ensures
            final(self).rule_texts() == old(self).rule_texts().insert(
                predecessor@,
                (predecessor@, successor@),
            ),
            final(self).replacements().dom() == old(self).replacements().dom().insert(
                predecessor@,
            ),
            final(self).replacements()[predecessor@].predecessor() == predecessor@,
            final(self).replacements()[predecessor@].successor() == successor@,
            forall|key: Seq<char>|
                key != predecessor@ && old(self).replacements().contains_key(key) ==> final(self).replacements()[key] == old(self).replacements()[key],
            final(self).context_rules() == old(self).context_rules(),
            final(self).module_rules() == old(self).module_rules(),
            final(self).start() == old(self).start(),
            final(self).definer() == old(self).definer(),
            final(self).name_text() == old(self).name_text(),
            final(self).actions() == old(self).actions(),
    {
        self.generic_rule.insert(
            predecessor.to_owned(),
            ReplacementRule::new(predecessor.to_owned(), successor.to_owned()),
        );
        assert(self.rule_texts() =~= old(self).rule_texts().insert(
            predecessor@,
            (predecessor@, successor@),
        ));
    }

    /// Gives `predecessor` the rule `rule_cb`, which looks at neighbours.
    ///
    /// In a system that holds rules of several types, a caller that wants
    /// to prove what the rule answers boxes it in the call, as in
    /// `add_context_sensitive_rule(key, Box::new(rule))`: what a box holds
    /// that was made as a box of a trait object before the call is not
    /// known behind it.
    pub fn add_context_sensitive_rule(
        &mut self,
        predecessor: &str,
        rule_cb: Box<C>,
    )
        ensures
            final(self).context_rules().dom() == old(self).context_rules().dom().insert(
                predecessor@,
            ),
            forall|symbol: char, index: int, chars: Seq<char>|
                #[trigger] final(self).context_rules()[predecessor@].successor(symbol, index, chars)
                    == rule_cb.successor(symbol, index, chars),
            forall|key: Seq<char>|
                key != predecessor@ && old(self).context_rules().contains_key(key) ==> final(self).context_rules()[key] == old(self).context_rules()[key],
            final(self).replacements() == old(self).replacements(),
            final(self).module_rules() == old(self).module_rules(),
            final(self).start() == old(self).start(),
            final(self).definer() == old(self).definer(),
            final(self).name_text() == old(self).name_text(),
            final(self).actions() == old(self).actions(),
    {
        self.context_sensitive_rules.insert(
            predecessor.to_owned(),
            ContextSensitiveProductionRule::new(rule_cb),
        );
    }

    /// Gives modules of the symbol `predecessor` the rule `rule_cb`. The
    /// rule is boxed in the call, as for `add_context_sensitive_rule`.
    pub fn add_parametic_production_rule(
        &mut self,
        predecessor: &str,
        rule_cb: Box<M>,
    )
        ensures
            final(self).module_rules().dom() == old(self).module_rules().dom().insert(
                predecessor@,
            ),
            forall|symbol: Seq<char>, params: Seq<ParamView>|
                #[trigger] final(self).module_rules()[predecessor@].successor(symbol, params)
                    == rule_cb.successor(symbol, params),
            forall|key: Seq<char>|
                key != predecessor@ && old(self).module_rules().contains_key(key) ==> final(self).module_rules()[key] == old(self).module_rules()[key],
            final(self).replacements() == old(self).replacements(),
            final(self).context_rules() == old(self).context_rules(),
            final(self).start() == old(self).start(),
            final(self).definer() == old(self).definer(),
            final(self).name_text() == old(self).name_text(),
            final(self).actions() == old(self).actions(),
    {
        self.parametric_production_rules.insert(
            predecessor.to_owned(),
            ParametricProductionRule::new(rule_cb),
        );
    }
}

impl<A: SymbolDefiner> LSystem<A, dyn ContextSensitiveRuleCB, dyn ParametricRuleCB> {
    /// An L-system with the initial string `start`, the alphabet
    /// `alphabet_definer`, no rules, no actions and an empty name.
    pub fn new(start: &str, alphabet_definer: A) -> (r: Self)
        ensures
            r.start() == start@,
            r.definer() == alphabet_definer,
            r.replacements() == Map::<Seq<char>, ReplacementRule>::empty(),
            r.context_rules() == Map::<Seq<char>, ContextSensitiveProductionRule>::empty(),
            r.module_rules() == Map::<Seq<char>, ParametricProductionRule>::empty(),
            r.name_text() == Seq::<char>::empty(),
            r.actions() == Seq::<(Seq<char>, ActionView)>::empty(),
    {
        let r = Self {
            axiom_text: start.to_owned(),
            generic_rule: RuleTable::new(),
            alphabet_definer,
            context_sensitive_rules: RuleTable::new(),
            parametric_production_rules: RuleTable::new(),
            name: String::new(),
            action_rules: Vec::new(),
        };
        assert(r.actions() =~= Seq::<(Seq<char>, ActionView)>::empty());
        r
    }
}

/// Why a run stopped.
#[derive(PartialEq, Eq, Clone, Copy, Debug, Structural)]
pub enum RunError {
    /// The symbol at step `at` is a module; modules cannot act yet.
    Module { at: usize },
    /// The action of the symbol at step `at` could not be made, or failed.
    Action { at: usize, error: ActionError },
}

/// The random number generator of the `perchance` crate.
#[verifier::external_type_specification]
#[verifier::external_body]
pub struct ExPerchanceContext(PerchanceContext);

/// The generator that `PerchanceContext::new` makes from a seed.
pub uninterp spec fn generator_of(seed: u128) -> PerchanceContext;

/// `PerchanceContext::new`: a generator seeded with `seed`. Two generators
/// with one seed are in the same state.
#[verifier::external_body]
fn seeded_generator(seed: u128) -> (r: PerchanceContext)
    ensures
        r == generator_of(seed),
{
    PerchanceContext::new(seed)
}

/// The seed of the generator of every context.
pub const RANDOM_SEED: u128 = 32132132151651;

/// The pose at one step of a run.
#[derive(Clone, Copy)]
pub struct ExecuteContextSnapshot<T> {
    /// The pose after the step.
    pub turtle: T,
    /// Whether a saved pose was restored right after the step.
    pub is_leave: bool,
}

/// What the actions of a run act on.
pub struct ExecuteContext<T> {
    /// Elements made by the actions.
    pub elements: Vec<()>,
    /// The saved poses.
    pub transform_stack: TurtleTransformStack<T>,
    /// The pose.
    pub turtle: T,
    /// The pose after every step, in order.
    pub snapshot: Vec<ExecuteContextSnapshot<T>>,
    /// The generator for random parameters.
    pub rng: PerchanceContext,
    pub is_leave: bool,
}

/// Whether `context` is one that a run starts with: it has the pose
/// `turtle`, no saved pose, no snapshot, no element, and a generator seeded
/// with [`RANDOM_SEED`].
pub open spec fn fresh<T>(turtle: T, context: ExecuteContext<T>) -> bool {
    &&& context.turtle == turtle
    &&& context.rng == generator_of(RANDOM_SEED)
    &&& context.transform_stack@ == Seq::<T>::empty()
    &&& context.snapshot@ == Seq::<ExecuteContextSnapshot<T>>::empty()
    &&& context.elements@ == Seq::<()>::empty()
    &&& !context.is_leave
}

/// Whether `after` is `before` with its pose appended to the snapshots.
pub open spec fn snapshotted<T>(before: ExecuteContext<T>, after: ExecuteContext<T>) -> bool {
    &&& after.snapshot@ == before.snapshot@.push(
        ExecuteContextSnapshot { turtle: before.turtle, is_leave: false },
    )
    &&& after.turtle == before.turtle
    &&& after.transform_stack == before.transform_stack
    &&& after.elements == before.elements
    &&& after.rng == before.rng
    &&& after.is_leave == before.is_leave
}

/// Whether `made` holds an action that, asked to act for `symbol` on the
/// context `before`, may leave the context `after` and return `r`.
pub open spec fn may_act<T>(
    made: Result<Option<Box<dyn LSystemAction<T>>>, ActionError>,
    symbol: SymbolView,
    before: ExecuteContext<T>,
    after: ExecuteContext<T>,
    r: Result<(), ActionError>,
) -> bool {
    made matches Ok(Some(action)) && action.acts(symbol, before, after, r)
}

/// Whether two contexts hold the same: the same pose, generator, saved
/// poses, snapshots and elements.
pub open spec fn alike<T>(a: ExecuteContext<T>, b: ExecuteContext<T>) -> bool {
    &&& a.turtle == b.turtle
    &&& a.rng == b.rng
    &&& a.transform_stack@ == b.transform_stack@
    &&& a.snapshot@ == b.snapshot@
    &&& a.elements@ == b.elements@
    &&& a.is_leave == b.is_leave
}

/// Whether two runs ended alike: with contexts that hold the same, or with
/// the same failure.
pub open spec fn ended_alike<T>(
    a: Result<ExecuteContext<T>, RunError>,
    b: Result<ExecuteContext<T>, RunError>,
) -> bool {
    match (a, b) {
        (Ok(a), Ok(b)) => alike(a, b),
        (Err(a), Err(b)) => a == b,
        _ => false,
    }
}

/// Whether carrying out `made`, which is what resolving the action of
/// `symbol` gave at step `at`, may turn the context `before` into `after`
/// and return `r`.
///
/// - An action acts on the context. Where it succeeds, the pose that it
///   left is appended to the snapshots; where it fails, the run stops with
///   the context as the action left it.
/// - Without an action the pose is appended to the snapshots.
/// - A failure to make the action stops the run; the context stays.
pub open spec fn carried_out<T>(
    made: Result<Option<Box<dyn LSystemAction<T>>>, ActionError>,
    symbol: SymbolView,
    at: usize,
    before: ExecuteContext<T>,
    after: ExecuteContext<T>,
    r: Result<(), RunError>,
) -> bool {
    match made {
        Ok(Some(_)) => exists|acted: ExecuteContext<T>, result: Result<(), ActionError>|
            {
                &&& #[trigger] may_act(made, symbol, before, acted, result)
                &&& match result {
                    Ok(()) => r == Ok::<(), RunError>(()) && snapshotted(acted, after),
                    Err(error) => r == Err::<(), RunError>(RunError::Action { at, error })
                        && after == acted,
                }
            },
        Ok(None) => r == Ok::<(), RunError>(()) && snapshotted(before, after),
        Err(error) => r == Err::<(), RunError>(RunError::Action { at, error }) && after == before,
    }
}

impl<T: Copy> ExecuteContext<T> {
    /// A context with the pose `turtle`, no saved pose, no snapshot, and a
    /// generator seeded with [`RANDOM_SEED`].
    pub fn new(turtle: T) -> (r: Self)
        ensures
            fresh(turtle, r),
    {
        Self {
            elements: Vec::new(),
            transform_stack: TurtleTransformStack::new(),
            turtle,
            snapshot: Vec::new(),
            rng: seeded_generator(RANDOM_SEED),
            is_leave: false,
        }
    }

    /// Saves `transform`.
    pub fn push(&mut self, transform: T)
        ensures
            final(self).transform_stack@ == old(self).transform_stack@.push(transform),
            final(self).turtle == old(self).turtle,
            final(self).snapshot == old(self).snapshot,
            final(self).elements == old(self).elements,
            final(self).rng == old(self).rng,
            final(self).is_leave == old(self).is_leave,
    {
        self.transform_stack.push(transform);
    }

    /// What `pop` makes of the snapshots: the last one is marked as a leaf.
    pub open spec fn marked(snapshots: Seq<ExecuteContextSnapshot<T>>) -> Seq<
        ExecuteContextSnapshot<T>,
    > {
        if snapshots.len() == 0 {
            snapshots
        } else {
            snapshots.update(
                snapshots.len() - 1,
                ExecuteContextSnapshot { turtle: snapshots.last().turtle, is_leave: true },
            )
        }
    }

    /// Takes the pose that was saved last off the stack and marks the last
    /// snapshot as a leaf. It fails, and changes nothing, where no pose is
    /// saved.
    pub fn pop(&mut self) -> (r: Result<T, ActionError>)
        ensures
            match r {
                Ok(transform) => {
                    &&& old(self).transform_stack@.len() > 0
                    &&& transform == old(self).transform_stack@.last()
                    &&& final(self).transform_stack@ == old(self).transform_stack@.drop_last()
                    &&& final(self).snapshot@ == Self::marked(old(self).snapshot@)
                },
                Err(e) => {
                    &&& e == ActionError::EmptyStack
                    &&& old(self).transform_stack@.len() == 0
                    &&& final(self).transform_stack@ == old(self).transform_stack@
                    &&& final(self).snapshot@ == old(self).snapshot@
                },
            },
            final(self).turtle == old(self).turtle,
            final(self).elements == old(self).elements,
            final(self).rng == old(self).rng,
            final(self).is_leave == old(self).is_leave,
    {
        match self.transform_stack.pop() {
            Some(transform) => {
                let count = self.snapshot.len();
                if count > 0 {
                    let last = self.snapshot[count - 1];
                    self.snapshot.set(
                        count - 1,
                        ExecuteContextSnapshot { turtle: last.turtle, is_leave: true },
                    );
                }
                Ok(transform)
            },
            None => Err(ActionError::EmptyStack),
        }
    }

    /// Carries out what resolving the action of `symbol` gave at step `at`
    /// of a run: lets the action act, if there is one, and appends the pose
    /// to the snapshots.
    pub fn carry_out(
        &mut self,
        made: Result<Option<Box<dyn LSystemAction<T>>>, ActionError>,
        symbol: &Symbol,
        at: usize,
    ) -> (r: Result<(), RunError>)
        ensures
            carried_out(made, symbol@, at, *old(self), *final(self), r),
    {
        match made {
            Ok(Some(action)) => {
                let acted = action.execute(symbol, self);
                assert(may_act(made, symbol@, *old(self), *self, acted));
                match acted {
                    Ok(()) => {
                        self.snapshot();
                        Ok(())
                    },
                    Err(error) => Err(RunError::Action { at, error }),
                }
            },
            Ok(None) => {
                self.snapshot();
                Ok(())
            },
            Err(error) => Err(RunError::Action { at, error }),
        }
    }

    /// Appends the pose to the snapshots.
    pub fn snapshot(&mut self)
        ensures
            snapshotted(*old(self), *final(self)),
            final(self).snapshot@ == old(self).snapshot@.push(
                ExecuteContextSnapshot { turtle: old(self).turtle, is_leave: false },
            ),
            final(self).turtle == old(self).turtle,
            final(self).transform_stack == old(self).transform_stack,
            final(self).elements == old(self).elements,
            final(self).rng == old(self).rng,
            final(self).is_leave == old(self).is_leave,
    {
        self.snapshot.push(ExecuteContextSnapshot { turtle: self.turtle, is_leave: false });
    }
}

/// The plain rules after the rules in `rules` were added to `base`, one
/// after the other.
pub open spec fn with_rule_texts(
    base: Map<Seq<char>, (Seq<char>, Seq<char>)>,
    rules: Seq<(String, String)>,
) -> Map<Seq<char>, (Seq<char>, Seq<char>)>
    decreases rules.len(),
{
    if rules.len() == 0 {
        base
    } else {
        with_rule_texts(base, rules.drop_last()).insert(
            rules.last().0@,
            (rules.last().0@, rules.last().1@),
        )
    }
}

/// Builds an L-system step by step.
pub struct LSystemBuilder<
    A: SymbolDefiner = DefaultAlphabetSymbolDefiner,
    C: ?Sized + ContextSensitiveRuleCB = dyn ContextSensitiveRuleCB,
    M: ?Sized + ParametricRuleCB = dyn ParametricRuleCB,
> {
    lsystem: LSystem<A, C, M>,
}

impl<A: SymbolDefiner> LSystemBuilder<A, dyn ContextSensitiveRuleCB, dyn ParametricRuleCB> {
    /// A builder for an L-system with the initial string `start` and the
    /// alphabet `alphabet_definer`.
    pub fn new(start: &'static str, alphabet_definer: A) -> (r: Self)
        ensures
            r.system().start() == start@,
            r.system().definer() == alphabet_definer,
            r.system().rule_texts() == Map::<Seq<char>, (Seq<char>, Seq<char>)>::empty(),
    {
        let lsystem = LSystem::new(start, alphabet_definer);
        assert(lsystem.rule_texts() =~= Map::<Seq<char>, (Seq<char>, Seq<char>)>::empty());
        Self { lsystem }
    }
}

impl<
    A: SymbolDefiner,
    C: ?Sized + ContextSensitiveRuleCB,
    M: ?Sized + ParametricRuleCB,
> LSystemBuilder<A, C, M> {
    /// The L-system as it was built so far.
    pub closed spec fn system(&self) -> LSystem<A, C, M> {
        self.lsystem
    }

    /// Adds the plain rules in `rules`: each replaces its first text by its
    /// second.
    pub fn with_rules(self, rules: &[(String, String)]) -> (r: Self)
        ensures
            r.system().rule_texts() == with_rule_texts(self.system().rule_texts(), rules@),
            r.system().start() == self.system().start(),
            r.system().definer() == self.system().definer(),
            r.system().context_rules() == self.system().context_rules(),
            r.system().module_rules() == self.system().module_rules(),
    {
        let mut built = self;
        let mut i: usize = 0;
        while i < rules.len()
            invariant
                i <= rules@.len(),
                built.system().rule_texts() == with_rule_texts(
                    self.system().rule_texts(),
                    rules@.take(i as int),
                ),
                built.system().start() == self.system().start(),
                built.system().definer() == self.system().definer(),
                built.system().context_rules() == self.system().context_rules(),
                built.system().module_rules() == self.system().module_rules(),
            decreases rules@.len() - i,
        {
            proof {
                assert(rules@.take(i + 1).drop_last() =~= rules@.take(i as int));
            }
            built.lsystem.add_rule(rules[i].0.as_str(), rules[i].1.as_str());
            i += 1;
        }
        assert(rules@.take(rules@.len() as int) =~= rules@);
        built
    }

    /// Gives the symbol `predecessor` the rules in `rules`, one after the
    /// other: the last one stays.
    pub fn with_context_sensitive_rules(self, predecessor: char, rules: Vec<Box<C>>) -> (r: Self)
        ensures
            r.system().rule_texts() == self.system().rule_texts(),
            r.system().start() == self.system().start(),
            r.system().definer() == self.system().definer(),
            r.system().module_rules() == self.system().module_rules(),
            rules@.len() == 0 ==> r.system().context_rules() == self.system().context_rules(),
            rules@.len() > 0 ==> {
                &&& r.system().context_rules().dom() == self.system().context_rules().dom().insert(
                    seq![predecessor],
                )
                &&& forall|symbol: char, index: int, chars: Seq<char>|
                    #[trigger] r.system().context_rules()[seq![predecessor]].successor(
                        symbol,
                        index,
                        chars,
                    ) == rules@.last().successor(symbol, index, chars)
                &&& forall|key: Seq<char>|
                    key != seq![predecessor] && self.system().context_rules().contains_key(key)
                        ==> r.system().context_rules()[key] == self.system().context_rules()[key]
            },
    {
        let mut built = self;
        let mut rules = rules;
        let ghost all = rules@;
        let key = char_string(predecessor);
        let mut last: Option<Box<C>> = None;
        // Of several rules for one symbol only the last stays: the others
        // need not be added.
        while rules.len() > 0
            invariant
                rules@.len() <= all.len(),
                last is None ==> rules@ == all,
                last is Some ==> all.len() > 0 && last->0 == all.last(),
            decreases rules@.len(),
        {
            let rule = rules.pop();
            if last.is_none() {
                last = rule;
            }
        }
        match last {
            Some(rule) => {
                built.lsystem.add_context_sensitive_rule(key.as_str(), rule);
                assert(built.system().rule_texts() =~= self.system().rule_texts());
            },
            None => {},
        }
        built
    }

    /// The L-system.
    pub fn build(self) -> (r: LSystem<A, C, M>)
        ensures
            r == self.system(),
    {
        self.lsystem
    }
}

/// Something that defines an L-system and names it.
pub trait LSystemDefinition: Sized {
    /// The name of the L-system.
    ///
    /// A definition that is verified says here what its `name` returns.
    /// For one that is not, this is the name of what it returns.
    closed spec fn named(&self) -> Seq<char> {
        arbitrary()
    }

    /// The L-system; read as `named` is.
    closed spec fn defined(&self) -> LSystem {
        arbitrary()
    }

    /// The definition.
    fn new() -> Self;

    /// The name of the L-system.
    fn name(&self) -> (r: &'static str)
        ensures
            r@ == self.named(),
    ;

    /// The L-system.
    fn lsystem(&self) -> (r: &LSystem)
        ensures
            *r == self.defined(),
    ;
}

} // verus!
