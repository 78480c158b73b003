use macaw::{Mat4, Quat};
use scebpl_system::abs::{Action, ActionParam, BinOpKind, ExprKind};
use scebpl_system::action::{
    ActionError, ActionResolver, Instruction, LSystemAction, ParamsResolver,
};
use scebpl_system::grammar::{DefaultAlphabetSymbolDefiner, Symbol, SymbolDefiner};
use scebpl_system::lexer::Lexer;
use scebpl_system::lsystem::{ContextSensitiveRuleCB, ExecuteContext, LSystem, ParametricRuleCB};
use scebpl_system::number::Number;
use scebpl_system::parser::{parse, LSystemParser, LexedTokens};

struct DefaultAlphabet;

impl SymbolDefiner for DefaultAlphabet {
    fn into_symbol(&self, char: char) -> Option<Symbol> {
        match char {
            'F' => Some(Symbol::Variable(char)),
            'G' => Some(Symbol::Variable(char)),
            'X' => Some(Symbol::Variable(char)),
            '0' => Some(Symbol::Variable(char)),
            '1' => Some(Symbol::Variable(char)),
            '+' => Some(Symbol::Constant(char)),
            '-' => Some(Symbol::Constant(char)),
            'A' => Some(Symbol::Constant(char)),
            'B' => Some(Symbol::Constant(char)),
            '[' => Some(Symbol::Constant(char)),
            ']' => Some(Symbol::Constant(char)),
            'a' => Some(Symbol::Module(char, vec![])),
            '(' => Some(Symbol::Constant(char)),
            ')' => Some(Symbol::Constant(char)),
            ',' => Some(Symbol::Constant(char)),
            _ => None,
        }
    }
}

struct Increment;

impl ParametricRuleCB for Increment {
    fn call(&self, _symbol: String, _params: ParamsResolver) -> Option<String> {
        return Some("a(0+1,0+1,0+1)".into());
    }
}

struct BetweenBAndC;

impl ContextSensitiveRuleCB for BetweenBAndC {
    fn call(&self, symbol: char, index: usize, chars: &[char]) -> Option<String> {
        if chars[index - 1] == 'B' && chars[index + 1] == 'C' && symbol == 'A' {
            return Some("AA".into());
        } else {
            return None;
        }
    }
}

#[test]
fn parametric_rule() {
    let mut lsystem = LSystem::<DefaultAlphabet>::new("a(0,1,2)", DefaultAlphabet);
    lsystem.add_parametic_production_rule("a", Box::new(Increment));

    let alphabet = lsystem.generate(1).unwrap();

    assert_eq!(alphabet.to_string(), "a(0+1,0+1,0+1)");
}

#[test]
fn context_sensitive_rule() {
    let mut lsystem = LSystem::new("BAC", DefaultAlphabetSymbolDefiner);
    lsystem.add_context_sensitive_rule("A", Box::new(BetweenBAndC));

    let alphabet = lsystem.generate(1).unwrap();
    assert_eq!(alphabet.symbols.len(), 4);
    assert_eq!(alphabet.to_string(), "BAAC");
}

#[test]
fn algae_test() {
    let mut lsystem = LSystem::new("A", DefaultAlphabetSymbolDefiner);
    lsystem.add_rule("A", "AB");
    lsystem.add_rule("B", "A");

    let alphabet = lsystem.generate(7).unwrap();
    assert_eq!(alphabet.symbols.len(), 34);
    assert_eq!(alphabet.to_string(), "ABAABABAABAABABAABABAABAABABAABAAB");
}

#[test]
fn fractal_binary_tree_test() {
    let mut lsystem = LSystem::new("0", DefaultAlphabetSymbolDefiner);
    lsystem.add_rule("1", "11");
    lsystem.add_rule("0", "1[0]0");

    let alphabet = lsystem.generate(3).unwrap();
    assert_eq!(alphabet.to_string(), "1111[11[1[0]0]1[0]0]11[1[0]0]1[0]0");
    assert_eq!(alphabet.symbols.len(), 34);
}

#[test]
fn lsystem_koch_curve() {
    let mut lsystem = LSystem::new("F", DefaultAlphabetSymbolDefiner);
    lsystem.add_rule("F", "F+F-F-F+F");

    let alphabet = lsystem.generate(3).unwrap();
    assert_eq!(alphabet.to_string(), "F+F-F-F+F+F+F-F-F+F-F+F-F-F+F-F+F-F-F+F+F+F-F-F+F+F+F-F-F+F+F+F-F-F+F-F+F-F-F+F-F+F-F-F+F+F+F-F-F+F-F+F-F-F+F+F+F-F-F+F-F+F-F-F+F-F+F-F-F+F+F+F-F-F+F-F+F-F-F+F+F+F-F-F+F-F+F-F-F+F-F+F-F-F+F+F+F-F-F+F+F+F-F-F+F+F+F-F-F+F-F+F-F-F+F-F+F-F-F+F+F+F-F-F+F");
    assert_eq!(alphabet.symbols.len(), 249);
}

#[test]
fn sierpinski_curve() {
    let mut lsystem = LSystem::new("F-G-G", DefaultAlphabetSymbolDefiner);
    lsystem.add_rule("F", "F-G+F+G-F");
    lsystem.add_rule("G", "GG");

    let alphabet = lsystem.generate(2).unwrap();
    assert_eq!(
        alphabet.to_string(),
        "F-G+F+G-F-GG+F-G+F+G-F+GG-F-G+F+G-F-GGGG-GGGG"
    );
    assert_eq!(alphabet.symbols.len(), 45);
}

#[test]
fn dragon_curve() {
    let mut lsystem = LSystem::new("F", DefaultAlphabetSymbolDefiner);
    lsystem.add_rule("F", "F+G");
    lsystem.add_rule("G", "F-G");

    let alphabet = lsystem.generate(3).unwrap();
    assert_eq!(alphabet.to_string(), "F+G+F-G+F+G-F-G");
    assert_eq!(alphabet.symbols.len(), 15);
}

#[test]
fn lsystem_fractal_plant() {
    let mut lsystem = LSystem::new("X", DefaultAlphabetSymbolDefiner);

    lsystem.add_rule("X", "F+[[X]-X]-F[-FX]+X");
    lsystem.add_rule("F", "FF");

    let alphabet = lsystem.generate(2).unwrap();
    assert_eq!(
        alphabet.to_string(),
        "FF+[[F+[[X]-X]-F[-FX]+X]-F+[[X]-X]-F[-FX]+X]-FF[-FFF+[[X]-X]-F[-FX]+X]+F+[[X]-X]-F[-FX]+X"
    );
    assert_eq!(alphabet.symbols.len(), 89);
}

#[test]
fn parse_simple_lsystem_from_script() {
    let definition = format!(
        "   lsystem KochCurve {{
            axiom F;
        }}
    ",
    );

    let lexer = Lexer::new().unwrap();

    let lex = lexer.lex(definition).unwrap();
    let tokens = LexedTokens::new(lex);

    let item = parse(tokens).unwrap();

    let lsystem = LSystemParser::parse(item).unwrap();

    assert_eq!(lsystem.axiom_text, "F");
    assert_eq!(lsystem.name, "KochCurve");
}

#[test]
fn parse_lsystem_from_script_and_generate() {
    let definition = format!(
        "lsystem KochCurve {{
            axiom F;

            replace F by F+F-F-F+F;
        }}
    ",
    );

    let lexer = Lexer::new().unwrap();

    let lex = lexer.lex(definition).unwrap();
    let tokens = LexedTokens::new(lex);

    let item = parse(tokens).unwrap();

    let lsystem = LSystemParser::parse(item).unwrap();
    let alphabet = lsystem.generate(3).unwrap();

    assert_eq!(lsystem.axiom_text, "F");
    assert_eq!(lsystem.name, "KochCurve");

    assert_eq!(
        alphabet.to_string(),
        "F+F-F-F+F+F+F-F-F+F-F+F-F-F+F-F+F-F-F+F+F+F-F-F+F+F+F-F-F+F+F+F-F-F+F-F+F-F-F+F-F+F-F-F+F+F+F-F-F+F-F+F-F-F+F+F+F-F-F+F-F+F-F-F+F-F+F-F-F+F+F+F-F-F+F-F+F-F-F+F+F+F-F-F+F-F+F-F-F+F-F+F-F-F+F+F+F-F-F+F+F+F-F-F+F+F+F-F-F+F-F+F-F-F+F-F+F-F-F+F+F+F-F-F+F"
    );
}

/// A turtle that can only turn.
#[derive(Clone, Copy)]
struct Turtle {
    rotation: Mat4,
}

impl Turtle {
    fn new() -> Self {
        Self {
            rotation: Mat4::IDENTITY,
        }
    }

    fn rotate_x(&mut self, rotation_angle: f32) {
        self.rotation *= Mat4::from_rotation_x(rotation_angle);
    }

    fn rotation(&self) -> Quat {
        Quat::from_mat4(&self.rotation)
    }
}

fn float_of(number: &Number) -> f32 {
    number.as_str().parse::<f32>().unwrap()
}

fn value_of<T>(program: &[Instruction], context: &mut ExecuteContext<T>) -> f32 {
    let mut stack: Vec<f32> = Vec::new();
    for step in program {
        match step {
            Instruction::Push(number) => stack.push(float_of(number)),
            Instruction::Draw(low, high) => stack.push(
                context
                    .rng
                    .uniform_range_f32(float_of(low)..float_of(high)),
            ),
            Instruction::Apply(op) => {
                let rh = stack.pop().unwrap();
                let lh = stack.pop().unwrap();
                stack.push(match op {
                    BinOpKind::Add => lh + rh,
                    BinOpKind::Sub => lh - rh,
                    BinOpKind::Mul => lh * rh,
                    BinOpKind::Div => lh / rh,
                    _ => unreachable!(),
                });
            }
        }
    }
    stack.pop().unwrap()
}

/// Rotation action around the x axis.
struct RotateXAction(Vec<Instruction>, char);

impl LSystemAction<Turtle> for RotateXAction {
    fn trigger(&self) -> Symbol {
        Symbol::Constant(self.1)
    }

    fn execute(
        &self,
        _symbol: &Symbol,
        context: &mut ExecuteContext<Turtle>,
    ) -> Result<(), ActionError> {
        let x = value_of(&self.0, context);
        context.turtle.rotate_x(x);
        Ok(())
    }

    fn from_params(_symbol: Symbol, params: &ParamsResolver) -> Result<Option<Self>, ActionError> {
        let x = params.get(0).unwrap().unwrap();
        Ok(Some(RotateXAction(x, 'a')))
    }

    fn name() -> &'static str {
        "RotateXAction"
    }
}

#[test]
fn parse_lsystem_from_script_and_action() {
    let definition = format!(
        "lsystem KochCurve {{
            axiom F;

            interpret F as RotateXAction(10);
        }}
    ",
    );

    let lexer = Lexer::new().unwrap();

    let lex = lexer.lex(definition).unwrap();
    let tokens = LexedTokens::new(lex);

    let item = parse(tokens).unwrap();

    let lsystem = LSystemParser::parse(item).unwrap();
    let alphabet = lsystem.generate(2).unwrap();

    let mut resolver = ActionResolver::new();
    resolver.add_action_resolver::<RotateXAction>(Symbol::Variable('F'));

    let context = lsystem.run(&resolver, &alphabet, Turtle::new()).unwrap();

    assert_eq!(
        context.turtle.rotation(),
        Quat::from_mat4(&macaw::Mat4::from_rotation_x(10.0))
    );
}

/// Keeps what its first parameter was worth at every step.
struct Sample(Vec<Instruction>);

impl LSystemAction<u32> for Sample {
    fn trigger(&self) -> Symbol {
        Symbol::Variable('F')
    }

    fn execute(&self, _symbol: &Symbol, context: &mut ExecuteContext<u32>) -> Result<(), ActionError> {
        context.turtle = value_of(&self.0, context).to_bits();
        Ok(())
    }

    fn from_params(_symbol: Symbol, params: &ParamsResolver) -> Result<Option<Self>, ActionError> {
        Ok(params.get(0).unwrap().map(Sample))
    }

    fn name() -> &'static str {
        "Sample"
    }
}

#[test]
fn random_parameters_repeat_from_run_to_run() {
    let mut lsystem = LSystem::new("F", DefaultAlphabetSymbolDefiner);
    lsystem.add_rule("F", "FF");
    lsystem.set_action_rules(vec![(
        "F".to_string(),
        Action::new(
            "Sample".to_string(),
            vec![ActionParam::Expression(ExprKind::Random(
                Number::parse("2").unwrap(),
                Number::parse("5").unwrap(),
            ))],
        ),
    )]);
    let mut resolver = ActionResolver::new();
    resolver.add_action_resolver::<Sample>(Symbol::Variable('F'));

    let samples = |generations: u8| -> Vec<f32> {
        let alphabet = lsystem.generate(generations).unwrap();
        lsystem
            .run(&resolver, &alphabet, 0)
            .unwrap()
            .snapshot
            .iter()
            .map(|snapshot| f32::from_bits(snapshot.turtle))
            .collect()
    };

    let first = samples(3);
    assert_eq!(first.len(), 8);
    assert!(first.iter().all(|sample| (2.0..5.0).contains(sample)));
    // Every reading draws anew.
    assert!(first.windows(2).any(|pair| pair[0] != pair[1]));
    // The same script and the same number of generations draw the same.
    assert_eq!(samples(3), first);
    assert_eq!(samples(2), first[..4].to_vec());
}
