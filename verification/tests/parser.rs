use scebpl_system::abs::{ActionParam, BinOpKind, ExprKind, Item, ItemKind, StatementKind};
use scebpl_system::lexer::{Lexer, Token};
use scebpl_system::number::Number;
use scebpl_system::parser::{parse, parse_module_parameters, LexedTokens};

/// A parameter with its numbers as values.
#[derive(PartialEq, Debug)]
enum Param {
    Number(f32),
    Constant(String),
    Binary(BinOpKind, Box<Param>, Box<Param>),
    Random(f32, f32),
    Empty,
}

/// A statement with the numbers of its parameters as values.
#[derive(PartialEq, Debug)]
enum Statement {
    Axiom(String),
    DefineVariable,
    Replace(String, String),
    Interpret(String, String, Vec<Param>),
}

fn float_of(number: &Number) -> f32 {
    number.as_str().parse::<f32>().unwrap()
}

fn param_of(param: &ActionParam) -> Param {
    match param {
        ActionParam::Number(number) => Param::Number(float_of(number)),
        ActionParam::Constant(name) => Param::Constant(name.clone()),
        ActionParam::Expression(ExprKind::Binary(op, left, right)) => Param::Binary(
            *op,
            Box::new(param_of(left.get())),
            Box::new(param_of(right.get())),
        ),
        ActionParam::Expression(ExprKind::Random(low, high)) => {
            Param::Random(float_of(low), float_of(high))
        }
        ActionParam::Empty => Param::Empty,
    }
}

fn statement_of(statement: &StatementKind) -> Statement {
    match statement {
        StatementKind::Axiom(start) => Statement::Axiom(start.clone()),
        StatementKind::DefineVariable => Statement::DefineVariable,
        StatementKind::Replace(from, to) => Statement::Replace(from.clone(), to.clone()),
        StatementKind::Interpret(trigger, action) => Statement::Interpret(
            trigger.clone(),
            action.name.clone(),
            action.params.params.iter().map(param_of).collect(),
        ),
    }
}

fn lsystem_of(item: &Item) -> (String, Vec<Statement>) {
    let ItemKind::LSystem(name, statements) = &item.item_kind;
    (name.clone(), statements.iter().map(statement_of).collect())
}

fn parsed(script: String) -> (String, Vec<Statement>) {
    let lexer = Lexer::new().unwrap();
    let lex = lexer.lex(script).unwrap();
    let tokens = LexedTokens::new(lex);
    let item = parse(tokens).unwrap();
    lsystem_of(&item)
}

fn number_token(value: &str) -> Token {
    Token::Number(Number::parse(value).unwrap())
}

fn binary(op: BinOpKind, left: f32, right: f32) -> Param {
    Param::Binary(
        op,
        Box::new(Param::Number(left)),
        Box::new(Param::Number(right)),
    )
}

#[test]
fn interpret_simple_action() {
    let string = String::from(
        "lsystem LSystemName {
            interpret A as DrawForward(1);
        }",
    );

    assert_eq!(
        parsed(string),
        (
            "LSystemName".into(),
            vec![Statement::Interpret(
                "A".into(),
                "DrawForward".into(),
                vec![Param::Number(1.0)]
            )]
        )
    );
}

#[test]
fn interpret_action_addition() {
    let string = String::from(
        "lsystem LSystemName {
            interpret A as DrawForward(1+1);
        }",
    );

    let expression = binary(BinOpKind::Add, 1.0, 1.0);

    assert_eq!(
        parsed(string),
        (
            "LSystemName".into(),
            vec![Statement::Interpret(
                "A".into(),
                "DrawForward".into(),
                vec![expression]
            )]
        )
    );
}

#[test]
fn interpret_action_two_additions() {
    let string = String::from(
        "lsystem LSystemName {
            interpret A as DrawForward(1+1, 2+2);
        }",
    );

    let expression1 = binary(BinOpKind::Add, 1.0, 1.0);
    let expression2 = binary(BinOpKind::Add, 2.0, 2.0);

    assert_eq!(
        parsed(string),
        (
            "LSystemName".into(),
            vec![Statement::Interpret(
                "A".into(),
                "DrawForward".into(),
                vec![expression1, expression2]
            )]
        )
    );
}

#[test]
fn interpret_action_decimal() {
    let string = String::from(
        "lsystem LSystemName {
            interpret A as DrawForward(1.5, 2.5);
        }",
    );

    let expression1 = Param::Number(1.5);
    let expression2 = Param::Number(2.5);

    assert_eq!(
        parsed(string),
        (
            "LSystemName".into(),
            vec![Statement::Interpret(
                "A".into(),
                "DrawForward".into(),
                vec![expression1, expression2]
            )]
        )
    );
}

#[test]
fn interpret_action_decimal_division() {
    let string = String::from(
        "lsystem LSystemName {
            interpret A as DrawForward(3.141592653589793238 / 3.141592653589793238, 1.5);
        }",
    );

    let expression1 = binary(
        BinOpKind::Div,
        3.141592653589793238,
        3.141592653589793238,
    );

    assert_eq!(
        parsed(string),
        (
            "LSystemName".into(),
            vec![Statement::Interpret(
                "A".into(),
                "DrawForward".into(),
                vec![expression1, Param::Number(1.5)]
            )]
        )
    );
}

#[test]
fn replace_single_const() {
    let string = String::from(
        "lsystem LSystemName {
            replace A by B;
        }",
    );

    assert_eq!(
        parsed(string),
        (
            "LSystemName".into(),
            vec![Statement::Replace(String::from("A"), String::from("B"))]
        )
    );
}

#[test]
fn replace_multi_const() {
    let string = String::from(
        "lsystem LSystemName {
            replace A B C by B;
        }",
    );

    assert_eq!(
        parsed(string),
        (
            "LSystemName".into(),
            vec![Statement::Replace(String::from("ABC"), String::from("B"))]
        )
    );
}

#[test]
fn axiom_statement() {
    let string = String::from(
        "lsystem LSystemName {
            axiom F+A;
        }",
    );

    assert_eq!(
        parsed(string),
        ("LSystemName".into(), vec![Statement::Axiom("F+A".into())])
    );
}

#[test]
fn parser_fractal_plant() {
    let string = String::from(
        "lsystem FractalPlant {
            axiom X;

            replace F by FF;
        }",
    );

    assert_eq!(
        parsed(string),
        (
            "FractalPlant".into(),
            vec![
                Statement::Axiom("X".into()),
                Statement::Replace(String::from("F"), String::from("FF"))
            ]
        )
    );
}

#[test]
fn parser_koch_curve() {
    let definition = format!(
        "lsystem KochCurve {{
            axiom F;

            replace F by F+F;
            interpret F as KochDrawF({:.1},{:.1},{:.1},{:.1});
            interpret + as RotateZAction(3.14/2);
        }}
    ",
        5, 0.2, 0.2, 0.2
    );

    assert_eq!(
        parsed(definition),
        (
            "KochCurve".into(),
            vec![
                Statement::Axiom("F".into()),
                Statement::Replace(String::from("F"), String::from("F+F")),
                Statement::Interpret(
                    "F".into(),
                    "KochDrawF".into(),
                    vec![
                        Param::Number(5.0),
                        Param::Number(0.2),
                        Param::Number(0.2),
                        Param::Number(0.2)
                    ]
                ),
                Statement::Interpret(
                    "+".into(),
                    "RotateZAction".into(),
                    vec![binary(BinOpKind::Div, 3.14, 2.0)]
                )
            ]
        )
    );
}

#[test]
fn parse_parameter_integer_number() {
    let mut tokens = LexedTokens::new(vec![
        Token::Param('('),
        number_token("1"),
        Token::Symbol(','),
        number_token("20"),
        Token::Symbol(','),
        number_token("300"),
        Token::Symbol(','),
        number_token("301"),
        Token::Param(')'),
    ]);

    let parsed: Vec<Param> = parse_module_parameters(&mut tokens)
        .unwrap()
        .iter()
        .map(param_of)
        .collect();

    assert_eq!(parsed[0], Param::Number(1.0));
    assert_eq!(parsed[1], Param::Number(20.0));
    assert_eq!(parsed[2], Param::Number(300.0));
    assert_eq!(parsed[3], Param::Number(301.0));
    assert_eq!(parsed.get(4), None);
}

#[test]
fn parse_parameter_integer_flaot_1() {
    let mut tokens = LexedTokens::new(vec![
        Token::Param('('),
        number_token("0.01"),
        Token::Param(')'),
    ]);

    println!("{:?}", tokens.tokens[2]);
    let parsed: Vec<Param> = parse_module_parameters(&mut tokens)
        .unwrap()
        .iter()
        .map(param_of)
        .collect();

    assert_eq!(parsed[0], Param::Number(0.01));
    assert_eq!(parsed.get(4), None);
}
