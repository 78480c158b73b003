use scebpl_system::abs::{ActionParam, BinOpKind, ExprKind, P};
use scebpl_system::action::{EvalError, Instruction, ParamsResolver};
use scebpl_system::grammar::{
    Alphabet, DefaultAlphabetSymbolDefiner, GrammarError, Symbol, SymbolDefiner,
};
use scebpl_system::lsystem::{
    ContextSensitiveProductionRule, ContextSensitiveRuleCB, FixedModuleRule, LSystem,
    LSystemBuilder, LSystemDefinition, NeighbourRule, ParametricProductionRule, ParametricRuleCB,
    ReplacementRule,
};
use scebpl_system::lsystem_cacher::{LSystemFactory, LSystemKey};
use scebpl_system::number::Number;
use scebpl_system::rules::RuleTable;

/// An alphabet in which every character is a constant.
struct Anything;

impl SymbolDefiner for Anything {
    fn into_symbol(&self, c: char) -> Option<Symbol> {
        Some(Symbol::Constant(c))
    }
}

/// Applies where the symbol has a neighbour on its left.
struct AfterSomething(&'static str);

impl ContextSensitiveRuleCB for AfterSomething {
    fn call(&self, _symbol: char, index: usize, _chars: &[char]) -> Option<String> {
        if index > 0 {
            Some(self.0.to_string())
        } else {
            None
        }
    }
}

/// Writes what it was asked.
struct Echo;

impl ParametricRuleCB for Echo {
    fn call(&self, symbol: String, params: ParamsResolver) -> Option<String> {
        let written: Vec<String> = params
            .params
            .iter()
            .map(|param| match param {
                ActionParam::Number(number) => format!("n{}", number.as_str()),
                ActionParam::Constant(name) => format!("c{}", name),
                _ => "?".to_string(),
            })
            .collect();
        Some(format!("<{}:{}>", symbol, written.join("|")))
    }
}

/// Never applies.
struct Never;

impl ParametricRuleCB for Never {
    fn call(&self, _symbol: String, _params: ParamsResolver) -> Option<String> {
        None
    }
}

fn num(text: &str) -> ActionParam {
    ActionParam::Number(Number::parse(text).unwrap())
}

fn binary(op: BinOpKind, left: ActionParam, right: ActionParam) -> ActionParam {
    ActionParam::Expression(ExprKind::Binary(op, P::new(left), P::new(right)))
}

fn push(text: &str) -> Instruction {
    Instruction::Push(Number::parse(text).unwrap())
}

#[test]
fn no_generation_returns_the_initial_string() {
    let mut lsystem = LSystem::new("F+[G]-f", DefaultAlphabetSymbolDefiner);
    lsystem.add_rule("F", "FF");
    lsystem.add_context_sensitive_rule("G", Box::new(AfterSomething("GG")));
    let alphabet = lsystem.generate(0).unwrap();
    assert_eq!(alphabet.to_string(), "F+[G]-f");
    assert_eq!(alphabet.generation, 0);
    assert_eq!(
        alphabet.symbols,
        vec![
            Symbol::Variable('F'),
            Symbol::Constant('+'),
            Symbol::Constant('['),
            Symbol::Variable('G'),
            Symbol::Constant(']'),
            Symbol::Constant('-'),
            Symbol::Variable('f'),
        ]
    );
}

#[test]
fn the_generation_is_kept_with_the_symbols() {
    let mut lsystem = LSystem::new("A", DefaultAlphabetSymbolDefiner);
    lsystem.add_rule("A", "AB");
    assert_eq!(lsystem.generate(3).unwrap().generation, 3);
    assert_eq!(lsystem.generate(3).unwrap().to_string(), "ABBB");
    assert_eq!(lsystem.generate(255).unwrap().symbols.len(), 256);
}

#[test]
fn an_empty_initial_string_stays_empty() {
    let mut lsystem = LSystem::new("", DefaultAlphabetSymbolDefiner);
    lsystem.add_rule("A", "AB");
    assert_eq!(lsystem.generate(4).unwrap().symbols, vec![]);
}

#[test]
fn a_symbol_without_rule_stays() {
    let lsystem = LSystem::new("AB+", DefaultAlphabetSymbolDefiner);
    assert_eq!(lsystem.generate(5).unwrap().to_string(), "AB+");
}

#[test]
fn a_later_rule_takes_the_place_of_an_earlier_one() {
    let mut lsystem = LSystem::new("A", DefaultAlphabetSymbolDefiner);
    lsystem.add_rule("A", "B");
    lsystem.add_rule("A", "C");
    assert_eq!(lsystem.generate(1).unwrap().to_string(), "C");
}

#[test]
fn a_rule_for_a_longer_text_never_applies() {
    let mut lsystem = LSystem::new("ABAB", DefaultAlphabetSymbolDefiner);
    lsystem.add_rule("AB", "C");
    assert_eq!(lsystem.generate(2).unwrap().to_string(), "ABAB");
}

#[test]
fn a_character_without_symbol_is_refused() {
    let mut lsystem = LSystem::new("AxB", DefaultAlphabetSymbolDefiner);
    assert_eq!(
        lsystem.generate(0),
        Err(GrammarError::UndefinedSymbol { found: 'x', at: 1 })
    );
    lsystem.add_rule("A", "AAA");
    assert_eq!(
        lsystem.generate(1),
        Err(GrammarError::UndefinedSymbol { found: 'x', at: 3 })
    );
}

#[test]
fn a_symbol_whose_neighbour_rule_does_not_apply_stays() {
    let mut lsystem = LSystem::new("AAB", DefaultAlphabetSymbolDefiner);
    lsystem.add_context_sensitive_rule("A", Box::new(AfterSomething("C")));
    // The first A has no left neighbour: its rule does not apply.
    assert_eq!(lsystem.generate(1).unwrap().to_string(), "ACB");
    assert_eq!(lsystem.generate(3).unwrap().to_string(), "ACB");

    let mut lsystem = LSystem::new("BAB", DefaultAlphabetSymbolDefiner);
    lsystem.add_context_sensitive_rule(
        "A",
        Box::new(NeighbourRule {
            left: 'B',
            right: 'C',
            successor: "AA".to_string(),
        }),
    );
    assert_eq!(lsystem.generate(1).unwrap().to_string(), "BAB");
}

#[test]
fn a_plain_rule_applies_where_the_neighbour_rule_does_not() {
    let mut lsystem = LSystem::new("AA", DefaultAlphabetSymbolDefiner);
    lsystem.add_rule("A", "X");
    lsystem.add_context_sensitive_rule("A", Box::new(AfterSomething("Y")));
    assert_eq!(lsystem.generate(1).unwrap().to_string(), "XY");
}

#[test]
fn a_neighbour_rule_comes_before_a_plain_rule() {
    let mut lsystem = LSystem::new("BA", DefaultAlphabetSymbolDefiner);
    lsystem.add_rule("A", "X");
    lsystem.add_context_sensitive_rule("A", Box::new(AfterSomething("Y")));
    assert_eq!(lsystem.generate(1).unwrap().to_string(), "BY");
}

#[test]
fn a_neighbour_rule_sees_the_string_that_is_rewritten() {
    let mut lsystem = LSystem::new("A", DefaultAlphabetSymbolDefiner);
    lsystem.add_rule("A", "BB");
    lsystem.add_context_sensitive_rule("B", Box::new(AfterSomething("C")));
    // In the successor BB the first B stands at the start, where its rule
    // does not apply.
    assert_eq!(lsystem.generate(2).unwrap().to_string(), "BC");
}

#[test]
fn a_successor_is_rewritten_for_the_generations_that_are_left() {
    let mut lsystem = LSystem::new("BA", DefaultAlphabetSymbolDefiner);
    lsystem.add_rule("C", "D");
    lsystem.add_context_sensitive_rule("A", Box::new(AfterSomething("CC")));
    assert_eq!(lsystem.generate(1).unwrap().to_string(), "BCC");
    assert_eq!(lsystem.generate(2).unwrap().to_string(), "BDD");
}

#[test]
fn a_module_hands_its_arguments_to_its_rule() {
    let mut lsystem = LSystem::new("Fa(0,x,-2.5)F", Anything);
    lsystem.add_parametic_production_rule("a", Box::new(Echo));
    assert_eq!(
        lsystem.generate(1).unwrap().to_string(),
        "F<a:n0|cx|n-2.5>F"
    );
    // The result of a module is not rewritten again.
    lsystem.add_rule("<", "!");
    lsystem.add_rule("F", "G");
    assert_eq!(
        lsystem.generate(2).unwrap().to_string(),
        "G<a:n0|cx|n-2.5>G"
    );
}

#[test]
fn a_module_that_no_rule_rewrites_stays() {
    let mut lsystem = LSystem::new("Fa(1,x)G", Anything);
    assert_eq!(lsystem.generate(1).unwrap().to_string(), "Fa(1,x)G");
    assert_eq!(lsystem.generate(0).unwrap().to_string(), "Fa(1,x)G");
    lsystem.add_parametic_production_rule("a", Box::new(Never));
    assert_eq!(lsystem.generate(4).unwrap().to_string(), "Fa(1,x)G");
    // The characters of its arguments are no symbols of their own.
    lsystem.add_rule("x", "y");
    assert_eq!(lsystem.generate(1).unwrap().to_string(), "Fa(1,x)G");
}

#[test]
fn a_module_falls_through_to_the_rules_of_its_symbol() {
    let mut lsystem = LSystem::new("Fa(1)G", Anything);
    lsystem.add_parametic_production_rule("a", Box::new(Never));
    lsystem.add_rule("a", "bb");
    lsystem.add_rule("b", "c");
    assert_eq!(lsystem.generate(1).unwrap().to_string(), "FbbG");
    assert_eq!(lsystem.generate(2).unwrap().to_string(), "FccG");
    lsystem.add_context_sensitive_rule("a", Box::new(AfterSomething("d")));
    assert_eq!(lsystem.generate(1).unwrap().to_string(), "FdG");
    lsystem.add_parametic_production_rule("a", Box::new(Echo));
    assert_eq!(lsystem.generate(2).unwrap().to_string(), "F<a:n1>G");
}

#[test]
fn a_module_ends_at_the_first_closing_sign() {
    let mut lsystem = LSystem::new("a((1),2)", Anything);
    lsystem.add_parametic_production_rule("a", Box::new(Echo));
    assert_eq!(lsystem.generate(1).unwrap().to_string(), "<a:c(1>,2)");
}

#[test]
fn a_module_that_is_not_closed_is_refused() {
    let lsystem = LSystem::new("FFa(1,2", Anything);
    assert_eq!(
        lsystem.generate(1),
        Err(GrammarError::UnclosedModule { at: 2 })
    );
    assert_eq!(lsystem.generate(0).unwrap().to_string(), "FFa(1,2");
    let lsystem = LSystem::new("a(", Anything);
    assert_eq!(
        lsystem.generate(3),
        Err(GrammarError::UnclosedModule { at: 0 })
    );
}

#[test]
fn arguments_are_numbers_or_constants() {
    let read = |text: &str| ParamsResolver::from_string(text.to_string()).params;
    assert_eq!(read("0,1,2"), vec![num("0"), num("1"), num("2")]);
    assert_eq!(read(""), vec![ActionParam::Constant("".into())]);
    assert_eq!(
        read(",1,"),
        vec![
            ActionParam::Constant("".into()),
            num("1"),
            ActionParam::Constant("".into())
        ]
    );
    assert_eq!(
        read("-1.5,x,1e3,inf,0+1, 2"),
        vec![
            num("-1.5"),
            ActionParam::Constant("x".into()),
            num("1e3"),
            num("inf"),
            ActionParam::Constant("0+1".into()),
            ActionParam::Constant(" 2".into()),
        ]
    );
}

#[test]
fn a_parameter_is_evaluated_left_operand_first() {
    let params = ParamsResolver {
        params: vec![
            num("1.5"),
            binary(
                BinOpKind::Sub,
                binary(BinOpKind::Mul, num("2"), num("3")),
                binary(BinOpKind::Div, num("4"), num("5")),
            ),
            ActionParam::Expression(ExprKind::Random(
                Number::parse("1").unwrap(),
                Number::parse("2").unwrap(),
            )),
            ActionParam::Empty,
        ],
    };
    assert_eq!(params.get(0), Ok(Some(vec![push("1.5")])));
    assert_eq!(
        params.get(1),
        Ok(Some(vec![
            push("2"),
            push("3"),
            Instruction::Apply(BinOpKind::Mul),
            push("4"),
            push("5"),
            Instruction::Apply(BinOpKind::Div),
            Instruction::Apply(BinOpKind::Sub),
        ]))
    );
    assert_eq!(
        params.get(2),
        Ok(Some(vec![Instruction::Draw(
            Number::parse("1").unwrap(),
            Number::parse("2").unwrap()
        )]))
    );
    assert_eq!(params.get(3), Ok(None));
    assert_eq!(params.get(4), Ok(None));
    assert_eq!(params.get(usize::MAX), Ok(None));
}

#[test]
fn what_has_no_value_is_named() {
    let constant = ActionParam::Constant("x".into());
    let params = ParamsResolver {
        params: vec![
            constant.clone(),
            binary(BinOpKind::Add, num("1"), constant.clone()),
            binary(BinOpKind::Rem, num("1"), num("2")),
            binary(BinOpKind::Rem, constant.clone(), num("2")),
            binary(BinOpKind::Rem, ActionParam::Empty, num("2")),
            binary(BinOpKind::Add, ActionParam::Empty, constant.clone()),
            binary(BinOpKind::Add, num("1"), ActionParam::Empty),
            binary(BinOpKind::Gt, num("1"), ActionParam::Empty),
        ],
    };
    assert_eq!(params.get(0), Err(EvalError::ConstantUnsupported));
    assert_eq!(params.get(1), Err(EvalError::ConstantUnsupported));
    assert_eq!(
        params.get(2),
        Err(EvalError::OperatorUnsupported(BinOpKind::Rem))
    );
    assert_eq!(params.get(3), Err(EvalError::ConstantUnsupported));
    // An empty left operand ends the evaluation before anything else is
    // looked at.
    assert_eq!(params.get(4), Ok(None));
    assert_eq!(params.get(5), Ok(None));
    assert_eq!(params.get(6), Ok(None));
    assert_eq!(params.get(7), Ok(None));
    for op in [
        BinOpKind::Rem,
        BinOpKind::BitXor,
        BinOpKind::BitAnd,
        BinOpKind::BitOr,
        BinOpKind::Lt,
        BinOpKind::Le,
        BinOpKind::Ne,
        BinOpKind::Ge,
        BinOpKind::Gt,
    ] {
        let params = ParamsResolver {
            params: vec![binary(op, num("1"), num("2"))],
        };
        assert_eq!(params.get(0), Err(EvalError::OperatorUnsupported(op)));
    }
}

#[test]
fn the_usual_alphabet() {
    let definer = DefaultAlphabetSymbolDefiner;
    for c in ('A'..='Z').chain(['f', '0', '1']) {
        assert_eq!(definer.into_symbol(c), Some(Symbol::Variable(c)));
    }
    for c in ['∧', '\\', '/', '|', '&', '+', '-', '[', ']'] {
        assert_eq!(definer.into_symbol(c), Some(Symbol::Constant(c)));
    }
    for c in ['a', 'g', 'z', '2', '9', '(', ')', ' ', '*', '@', '`', '{', 'é'] {
        assert_eq!(definer.into_symbol(c), None);
    }
}

#[test]
fn an_alphabet_is_read_and_written() {
    let alphabet = Alphabet::from_string("F+a".to_string(), 4, &Anything).unwrap();
    assert_eq!(alphabet.generation, 4);
    assert_eq!(alphabet.to_string(), "F+a");
    assert_eq!(
        Alphabet::from_string("F+a".to_string(), 4, &DefaultAlphabetSymbolDefiner),
        Err(GrammarError::UndefinedSymbol { found: 'a', at: 2 })
    );
    let mut alphabet =
        Alphabet::from_string("".to_string(), 0, &DefaultAlphabetSymbolDefiner).unwrap();
    assert_eq!(alphabet.to_string(), "");
    alphabet.add_symbol(Symbol::Module('m', vec!['x', 'y']));
    alphabet.add_symbol(Symbol::Variable('V'));
    assert_eq!(alphabet.to_string(), "mV");
    let seen: Vec<&Symbol> = alphabet.iter().collect();
    assert_eq!(
        seen,
        vec![&Symbol::Module('m', vec!['x', 'y']), &Symbol::Variable('V')]
    );
    assert_eq!(alphabet.clone(), alphabet);
    assert_eq!(Symbol::Module('m', vec!['x']).letter(), 'm');
    assert_eq!(Symbol::Constant('+').clone(), Symbol::Constant('+'));
}

#[test]
fn a_table_keeps_one_rule_for_a_text() {
    let mut table: RuleTable<u8> = RuleTable::new();
    assert_eq!(table.get("a"), None);
    table.insert("a".to_string(), 1);
    table.insert("b".to_string(), 2);
    table.insert("".to_string(), 3);
    assert_eq!(table.get("a"), Some(&1));
    table.insert("a".to_string(), 4);
    assert_eq!(table.get("a"), Some(&4));
    assert_eq!(table.get("b"), Some(&2));
    assert_eq!(table.get(""), Some(&3));
    assert_eq!(table.get("ab"), None);
}

#[test]
fn rules_apply_to_what_they_replace() {
    let rule = ReplacementRule::new("A".to_string(), "AB".to_string());
    assert_eq!(rule.apply("A".to_string()), Some("AB".to_string()));
    assert_eq!(rule.apply("B".to_string()), None);
    assert_eq!(rule.apply("AA".to_string()), None);
    assert!(rule.clone() == rule);

    let rule = ContextSensitiveProductionRule::new(Box::new(AfterSomething("X")));
    assert_eq!(rule.apply('A', 1, &['B', 'A']), Some("X".to_string()));
    assert_eq!(rule.apply('A', 0, &['A', 'B']), None);

    let rule = ParametricProductionRule::new(Box::new(Echo));
    assert_eq!(
        rule.apply("a".to_string(), ParamsResolver::from_string("1,b".to_string())),
        Some("<a:n1|cb>".to_string())
    );
}

#[test]
fn a_builder_adds_rules_in_order() {
    let lsystem = LSystemBuilder::new("AB", DefaultAlphabetSymbolDefiner)
        .with_rules(&[
            ("A".to_string(), "X".to_string()),
            ("B".to_string(), "BB".to_string()),
            ("A".to_string(), "Y".to_string()),
        ])
        .with_context_sensitive_rules(
            'B',
            vec![
                Box::new(AfterSomething("C")) as Box<dyn ContextSensitiveRuleCB>,
                Box::new(AfterSomething("D")),
            ],
        )
        .with_context_sensitive_rules('A', vec![])
        .build();
    assert_eq!(lsystem.axiom_text, "AB");
    assert_eq!(lsystem.generate(1).unwrap().to_string(), "YD");
}

struct Algae {
    lsystem: LSystem,
}

impl LSystemDefinition for Algae {
    fn new() -> Self {
        let mut lsystem = LSystem::new("A", DefaultAlphabetSymbolDefiner);
        lsystem.add_rule("A", "AB");
        lsystem.add_rule("B", "A");
        Algae { lsystem }
    }

    fn name(&self) -> &'static str {
        "algae"
    }

    fn lsystem(&self) -> &LSystem {
        &self.lsystem
    }
}

struct Broken {
    lsystem: LSystem,
}

impl LSystemDefinition for Broken {
    fn new() -> Self {
        Broken {
            lsystem: LSystem::new("a", DefaultAlphabetSymbolDefiner),
        }
    }

    fn name(&self) -> &'static str {
        "broken"
    }

    fn lsystem(&self) -> &LSystem {
        &self.lsystem
    }
}

#[test]
fn a_factory_generates_once() {
    let mut factory: LSystemFactory<u8> = LSystemFactory::new();
    let mut algae = Algae::new();
    assert!(factory.alphabet("algae", 3).is_none());
    assert_eq!(factory.generate(&algae, 3).unwrap().to_string(), "ABAAB");
    assert_eq!(factory.generate(&algae, 2).unwrap().to_string(), "ABA");
    // What is kept is returned, whatever the definition has become.
    algae.lsystem.add_rule("A", "C");
    assert_eq!(factory.generate(&algae, 3).unwrap().to_string(), "ABAAB");
    assert_eq!(factory.generate(&algae, 1).unwrap().to_string(), "C");
    assert_eq!(factory.alphabet("algae", 3).unwrap().to_string(), "ABAAB");
    assert!(factory.alphabet("algae", 4).is_none());
    assert!(factory.alphabet("alga", 3).is_none());

    assert_eq!(
        factory.generate(&Broken::new(), 0).map(|a| a.to_string()),
        Err(GrammarError::UndefinedSymbol { found: 'a', at: 0 })
    );
    assert!(factory.alphabet("broken", 0).is_none());

    assert_eq!(factory.drawing("algae", 3), None);
    factory.keep_drawing(LSystemKey("algae", 3), vec![1, 2]);
    factory.keep_drawing(LSystemKey("algae", 2), vec![3]);
    factory.keep_drawing(LSystemKey("algae", 3), vec![4]);
    assert_eq!(factory.drawing("algae", 3), Some(&vec![4]));
    assert_eq!(factory.drawing("algae", 2), Some(&vec![3]));
    assert_eq!(factory.drawing("algae", 1), None);
    assert!(LSystemKey("a", 1) == LSystemKey("a", 1).clone());
}

#[test]
fn a_rule_between_two_neighbours() {
    let between = || {
        Box::new(NeighbourRule {
            left: 'B',
            right: 'C',
            successor: "AA".to_string(),
        })
    };
    let mut lsystem = LSystem::new("BAC", DefaultAlphabetSymbolDefiner);
    lsystem.add_context_sensitive_rule("A", between());
    let alphabet = lsystem.generate(1).unwrap();
    assert_eq!(alphabet.to_string(), "BAAC");
    assert_eq!(alphabet.symbols.len(), 4);
    // In the successor the symbols have other neighbours, and stay.
    assert_eq!(lsystem.generate(2).unwrap().to_string(), "BAAC");

    let mut lsystem = LSystem::new("ABACCAC", DefaultAlphabetSymbolDefiner);
    lsystem.add_context_sensitive_rule("A", between());
    // Only the second A stands between B and C; a symbol at either end has
    // no two neighbours.
    assert_eq!(lsystem.generate(1).unwrap().to_string(), "ABAACCAC");

    let rule = between();
    assert_eq!(rule.call('A', 1, &['B', 'A', 'C']), Some("AA".to_string()));
    assert_eq!(rule.call('A', 0, &['A', 'C']), None);
    assert_eq!(rule.call('A', 1, &['B', 'A']), None);
    assert_eq!(rule.call('A', 1, &['C', 'A', 'B']), None);
}

#[test]
fn a_rule_that_writes_the_same_for_every_module() {
    let mut lsystem = LSystem::new("a(1)Fa(x,y)", Anything);
    lsystem.add_parametic_production_rule(
        "a",
        Box::new(FixedModuleRule {
            successor: "a(0)".to_string(),
        }),
    );
    assert_eq!(lsystem.generate(1).unwrap().to_string(), "a(0)Fa(0)");
    assert_eq!(lsystem.generate(9).unwrap().to_string(), "a(0)Fa(0)");
}

/// Rewrites every symbol of `text` once.
fn once(rules: &[(char, &str)], text: &str) -> String {
    text.chars()
        .map(|c| match rules.iter().rev().find(|rule| rule.0 == c) {
            Some(rule) => rule.1.to_string(),
            None => c.to_string(),
        })
        .collect()
}

#[test]
fn rewriting_symbol_by_symbol_is_rewriting_at_once() {
    let systems: [(&str, &[(char, &str)]); 5] = [
        ("A", &[('A', "AB"), ('B', "A")]),
        ("F-G-G", &[('F', "F-G+F+G-F"), ('G', "GG")]),
        ("X", &[('X', "F+[[X]-X]-F[-FX]+X"), ('F', "FF")]),
        ("ABC", &[('A', ""), ('B', "B"), ('C', "AC"), ('A', "BA")]),
        ("", &[('A', "AA")]),
    ];
    for (start, rules) in systems {
        let mut lsystem = LSystem::new(start, DefaultAlphabetSymbolDefiner);
        for (predecessor, successor) in rules {
            lsystem.add_rule(&predecessor.to_string(), successor);
        }
        let mut at_once = start.to_string();
        for generations in 0..6 {
            assert_eq!(lsystem.generate(generations).unwrap().to_string(), at_once);
            at_once = once(rules, &at_once);
        }
    }
}
