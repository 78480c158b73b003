//! A small language for Lindenmayer systems.
//!
//! A script names an L-system, gives its initial string and the rules that
//! rewrite it, and binds symbols to actions. The library cuts a script into
//! tokens ([`Lexer`]), parses the tokens ([`parse`]), builds the L-system
//! ([`LSystemParser`]), rewrites its initial string for a number of
//! generations ([`LSystem::generate`]) and walks through the result, letting
//! the actions of its symbols act on a context ([`LSystem::run`]).
//!
//! Numbers are kept as they are written. What a pose is, and how numbers
//! move it, is left to the caller.

pub mod abs;
pub mod action;
pub mod default_actions;
pub mod grammar;
pub mod lexer;
pub mod lsystem;
pub mod lsystem_cacher;
pub mod number;
pub mod parser;
pub mod rules;
pub mod text;
pub mod turtle_graphics;

pub use abs::{
    Action, ActionParam, BinOpKind, Constant, ExprKind, Item, ItemKind, ReplaceExprKind,
    ReplaceKind, StatementKind, P,
};
pub use action::{
    ActionError, ActionFactory, ActionResolver, EvalError, Instruction, LSystemAction,
    ParamsResolver,
};
pub use default_actions::{PopTransformFromStackAction, PushTranformToStackAction};
pub use grammar::{
    Alphabet, DefaultAlphabetSymbolDefiner, GrammarError, Params, Symbol, SymbolDefiner,
};
pub use lexer::{
    lex_sorted, CharClass, LexError, Lexer, Sorted, Statements, Token, UnlexedTokens,
};
pub use lsystem::{
    ContextSensitiveProductionRule, ContextSensitiveRuleCB, ExecuteContext,
    ExecuteContextSnapshot, FixedModuleRule, LSystem, LSystemBuilder, LSystemDefinition,
    NeighbourRule, ParametricProductionRule, ParametricRuleCB, ReplacementRule, RunError,
};
pub use lsystem_cacher::{LSystemFactory, LSystemKey};
pub use number::Number;
pub use parser::{
    parse, parse_module_parameters, parse_parameters, LSystemParser, LexedTokens, ParseError,
    ParseErrorKind, ParsedToken,
};
pub use turtle_graphics::TurtleTransformStack;
