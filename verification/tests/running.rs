use scebpl_system::abs::Action;
use scebpl_system::action::{ActionError, ActionResolver, EvalError, LSystemAction, ParamsResolver};
use scebpl_system::default_actions::{PopTransformFromStackAction, PushTranformToStackAction};
use scebpl_system::grammar::{Alphabet, DefaultAlphabetSymbolDefiner, Symbol, SymbolDefiner};
use scebpl_system::lsystem::{ExecuteContext, ExecuteContextSnapshot, LSystem, RunError};
use scebpl_system::number::Number;
use scebpl_system::turtle_graphics::TurtleTransformStack;

/// Adds the number that it was made with to the pose.
struct Step(i64);

impl LSystemAction<i64> for Step {
    fn from_params(_symbol: Symbol, params: &ParamsResolver) -> Result<Option<Self>, ActionError> {
        match params.get(0) {
            Ok(Some(program)) => match program.as_slice() {
                [scebpl_system::action::Instruction::Push(number)] => {
                    Ok(Some(Step(number.as_str().parse().unwrap())))
                }
                _ => Ok(None),
            },
            Ok(None) => Err(ActionError::MissingParameter { index: 0 }),
            Err(error) => Err(ActionError::Evaluation(error)),
        }
    }

    fn name() -> &'static str {
        "Step"
    }

    fn trigger(&self) -> Symbol {
        Symbol::Variable('F')
    }

    fn execute(&self, _symbol: &Symbol, context: &mut ExecuteContext<i64>) -> Result<(), ActionError> {
        context.turtle += self.0;
        Ok(())
    }
}

/// Doubles the pose.
struct Double;

impl LSystemAction<i64> for Double {
    fn from_params(_symbol: Symbol, _params: &ParamsResolver) -> Result<Option<Self>, ActionError> {
        Ok(Some(Double))
    }

    fn name() -> &'static str {
        "Step"
    }

    fn trigger(&self) -> Symbol {
        Symbol::Variable('F')
    }

    fn execute(&self, _symbol: &Symbol, context: &mut ExecuteContext<i64>) -> Result<(), ActionError> {
        context.turtle *= 2;
        Ok(())
    }
}

/// An alphabet in which `m` is a module and every other character a
/// constant.
struct WithModule;

impl SymbolDefiner for WithModule {
    fn into_symbol(&self, c: char) -> Option<Symbol> {
        if c == 'm' {
            Some(Symbol::Module(c, vec![]))
        } else {
            Some(Symbol::Constant(c))
        }
    }
}

fn bound(bindings: &[(&str, &str, &str)]) -> LSystem {
    let mut lsystem = LSystem::new("", DefaultAlphabetSymbolDefiner);
    lsystem.set_action_rules(
        bindings
            .iter()
            .map(|(trigger, name, params)| {
                (
                    trigger.to_string(),
                    Action {
                        name: name.to_string(),
                        params: ParamsResolver::from_string(params.to_string()),
                    },
                )
            })
            .collect(),
    );
    lsystem
}

fn symbols(text: &str) -> Alphabet {
    Alphabet::from_string(text.to_string(), 0, &WithModule).unwrap()
}

fn resolver() -> ActionResolver<i64> {
    let mut resolver = ActionResolver::new();
    resolver.add_action_resolver::<Step>(Symbol::Constant('F'));
    resolver.add_action_resolver::<Step>(Symbol::Variable('G'));
    resolver.add_action_resolver::<PushTranformToStackAction>(Symbol::Constant('['));
    resolver.add_action_resolver::<PopTransformFromStackAction>(Symbol::Constant(']'));
    resolver
}

fn poses(context: &ExecuteContext<i64>) -> Vec<i64> {
    context.snapshot.iter().map(|snapshot| snapshot.turtle).collect()
}

#[test]
fn a_run_takes_a_snapshot_at_every_step() {
    let lsystem = bound(&[("F", "Step", "2"), ("G", "Step", "10"), ("x", "Step", "1")]);
    let context = lsystem
        .run(&resolver(), &symbols("F+GFx"), 100)
        .unwrap();
    assert_eq!(context.turtle, 114);
    assert_eq!(poses(&context), vec![102, 102, 112, 114, 114]);
    assert!(context.snapshot.iter().all(|snapshot| !snapshot.is_leave));
    assert!(context.transform_stack.is_empty());
}

#[test]
fn a_run_over_nothing_takes_no_snapshot() {
    let context = bound(&[]).run(&resolver(), &symbols(""), 7).unwrap();
    assert_eq!(poses(&context), vec![]);
    assert_eq!(context.turtle, 7);
    assert_eq!(context.elements, vec![]);
    assert!(!context.is_leave);
}

#[test]
fn symbols_without_action_change_nothing() {
    let lsystem = bound(&[("F", "Walk", "2"), ("Y", "Step", "2")]);
    let context = lsystem.run(&resolver(), &symbols("FXY"), 5).unwrap();
    assert_eq!(poses(&context), vec![5, 5, 5]);
}

#[test]
fn the_first_binding_of_a_symbol_counts() {
    let lsystem = bound(&[("F", "Step", "1"), ("F", "Step", "50")]);
    let context = lsystem.run(&resolver(), &symbols("FF"), 0).unwrap();
    assert_eq!(context.turtle, 2);
    assert_eq!(
        lsystem
            .action_for(&Symbol::Variable('F'))
            .map(|action| action.params.params.clone()),
        Some(vec![scebpl_system::abs::ActionParam::Number(
            Number::parse("1").unwrap()
        )])
    );
    assert!(lsystem.action_for(&Symbol::Constant('G')).is_none());
    assert!(lsystem.action_for(&Symbol::Module('F', vec![])).is_none());
}

#[test]
fn the_last_registration_counts() {
    let mut resolver = resolver();
    resolver.add_action_resolver::<Double>(Symbol::Variable('F'));
    resolver.add_action_resolver::<Double>(Symbol::Module('G', vec![]));
    assert_eq!(resolver.actions.len(), 5);
    let lsystem = bound(&[("F", "Step", "3"), ("G", "Step", "3")]);
    let context = lsystem.run(&resolver, &symbols("GFG"), 1).unwrap();
    assert_eq!(poses(&context), vec![4, 8, 11]);
}

#[test]
fn saving_and_restoring_gives_back_the_pose() {
    let lsystem = bound(&[
        ("F", "Step", "1"),
        ("[", "PushTranformToStackAction", ""),
        ("]", "PushTranformToStackAction", ""),
    ]);
    let context = lsystem
        .run(&resolver(), &symbols("F[F[FF]F]F"), 0)
        .unwrap();
    assert_eq!(poses(&context), vec![1, 1, 2, 2, 3, 4, 2, 3, 1, 2]);
    assert!(context.transform_stack.is_empty());

    // As many restorings as savings: the pose is the one of the first
    // saving, whatever it was in between.
    let context = lsystem
        .run(&resolver(), &symbols("FF[F[[FFF]]]"), 0)
        .unwrap();
    assert_eq!(context.turtle, 2);
    assert!(context.transform_stack.is_empty());
}

#[test]
fn restoring_without_a_saved_pose_stops_the_run() {
    let lsystem = bound(&[
        ("[", "PushTranformToStackAction", ""),
        ("]", "PushTranformToStackAction", ""),
    ]);
    assert_eq!(
        lsystem
            .run(&resolver(), &symbols("[]F]"), 0)
            .map(|context| context.turtle),
        Err(RunError::Action {
            at: 3,
            error: ActionError::EmptyStack
        })
    );
}

#[test]
fn an_action_that_cannot_be_made_stops_the_run() {
    let lsystem = bound(&[("F", "Step", "x"), ("G", "Step", "1")]);
    assert_eq!(
        lsystem
            .run(&resolver(), &symbols("GGF"), 0)
            .map(|context| context.turtle),
        Err(RunError::Action {
            at: 2,
            error: ActionError::Evaluation(EvalError::ConstantUnsupported)
        })
    );
    let mut lsystem = bound(&[]);
    lsystem.set_action_rules(vec![(
        "F".to_string(),
        Action::new("Step".to_string(), vec![]),
    )]);
    assert_eq!(
        lsystem
            .run(&resolver(), &symbols("F"), 0)
            .map(|context| context.turtle),
        Err(RunError::Action {
            at: 0,
            error: ActionError::MissingParameter { index: 0 }
        })
    );
}

#[test]
fn a_module_stops_the_run() {
    let lsystem = bound(&[("F", "Step", "1")]);
    assert_eq!(
        lsystem
            .run(&resolver(), &symbols("FFmF"), 0)
            .map(|context| context.turtle),
        Err(RunError::Module { at: 2 })
    );
}

#[test]
fn a_resolver_makes_what_is_registered() {
    let resolver = resolver();
    let step = Action {
        name: "Step".to_string(),
        params: ParamsResolver::from_string("4".to_string()),
    };
    let walk = Action {
        name: "Walk".to_string(),
        params: ParamsResolver::from_string("4".to_string()),
    };
    let mut context = ExecuteContext::new(1);
    let action = resolver
        .resolve(&Symbol::Variable('F'), &step)
        .unwrap()
        .unwrap();
    action.execute(&Symbol::Variable('F'), &mut context).unwrap();
    assert_eq!(context.turtle, 5);
    assert!(action.trigger() == Symbol::Variable('F'));
    assert!(resolver
        .resolve(&Symbol::Variable('X'), &step)
        .unwrap()
        .is_none());
    assert!(resolver
        .resolve(&Symbol::Variable('F'), &walk)
        .unwrap()
        .is_none());
    assert!(resolver
        .resolve(&Symbol::Module('F', vec![]), &step)
        .unwrap()
        .is_none());
    assert!(ActionResolver::<i64>::new().actions.is_empty());
}

#[test]
fn the_stack_gives_back_the_last_pose_first() {
    let mut stack = TurtleTransformStack::new();
    assert!(stack.is_empty());
    assert_eq!(stack.pop(), None);
    stack.push(1);
    stack.push(2);
    stack.push(3);
    assert!(!stack.is_empty());
    assert_eq!(stack.pop(), Some(3));
    stack.push(4);
    assert_eq!(stack.pop(), Some(4));
    assert_eq!(stack.pop(), Some(2));
    assert_eq!(stack.pop(), Some(1));
    assert_eq!(stack.pop(), None);
}

#[test]
fn a_context_marks_the_snapshot_where_a_pose_was_restored() {
    let mut context = ExecuteContext::new('a');
    assert_eq!(context.pop(), Err(ActionError::EmptyStack));
    context.push('x');
    assert_eq!(context.pop(), Ok('x'));
    assert!(context.snapshot.is_empty());
    context.snapshot();
    context.turtle = 'b';
    context.snapshot();
    context.push('y');
    context.push('z');
    assert_eq!(context.pop(), Ok('z'));
    assert_eq!(context.turtle, 'b');
    let marks: Vec<(char, bool)> = context
        .snapshot
        .iter()
        .map(|snapshot: &ExecuteContextSnapshot<char>| (snapshot.turtle, snapshot.is_leave))
        .collect();
    assert_eq!(marks, vec![('a', false), ('b', true)]);
    assert_eq!(context.pop(), Ok('y'));
    assert_eq!(context.pop(), Err(ActionError::EmptyStack));
}

#[test]
fn the_actions_of_the_stack_act_on_the_context() {
    let bracket = Symbol::Constant('[');
    let mut context = ExecuteContext::new(5);
    let save = <PushTranformToStackAction as LSystemAction<i32>>::from_params(
        bracket.clone(),
        &ParamsResolver { params: vec![] },
    )
    .unwrap()
    .unwrap();
    let restore = <PopTransformFromStackAction as LSystemAction<i32>>::from_params(
        bracket.clone(),
        &ParamsResolver { params: vec![] },
    )
    .unwrap()
    .unwrap();
    assert_eq!(
        LSystemAction::<i32>::execute(&restore, &bracket, &mut context),
        Err(ActionError::EmptyStack)
    );
    assert_eq!(context.turtle, 5);
    LSystemAction::<i32>::execute(&save, &bracket, &mut context).unwrap();
    context.turtle = 9;
    LSystemAction::<i32>::execute(&save, &bracket, &mut context).unwrap();
    context.turtle = 11;
    LSystemAction::<i32>::execute(&restore, &bracket, &mut context).unwrap();
    assert_eq!(context.turtle, 9);
    LSystemAction::<i32>::execute(&restore, &bracket, &mut context).unwrap();
    assert_eq!(context.turtle, 5);
    assert!(context.transform_stack.is_empty());
    assert!(context.snapshot.is_empty());
    assert!(LSystemAction::<i32>::trigger(&save) == Symbol::Constant('['));
    assert!(LSystemAction::<i32>::trigger(&restore) == Symbol::Constant(']'));
    assert_eq!(
        <PushTranformToStackAction as LSystemAction<i32>>::name(),
        "PushTranformToStackAction"
    );
    assert_eq!(
        <PopTransformFromStackAction as LSystemAction<i32>>::name(),
        "PushTranformToStackAction"
    );
}

#[test]
fn a_step_carries_out_what_was_resolved() {
    let lsystem = bound(&[("F", "Step", "3"), ("G", "Step", "x"), ("m", "Step", "1")]);
    let resolver = resolver();
    let mut context = ExecuteContext::new(10);

    assert_eq!(
        lsystem.step(&resolver, &Symbol::Variable('F'), 0, &mut context),
        Ok(())
    );
    assert_eq!(poses(&context), vec![13]);
    // A symbol without action only has the pose appended.
    assert_eq!(
        lsystem.step(&resolver, &Symbol::Constant('X'), 1, &mut context),
        Ok(())
    );
    assert_eq!(poses(&context), vec![13, 13]);
    // A failure leaves the snapshots as they are.
    assert_eq!(
        lsystem.step(&resolver, &Symbol::Variable('G'), 2, &mut context),
        Err(RunError::Action {
            at: 2,
            error: ActionError::Evaluation(EvalError::ConstantUnsupported)
        })
    );
    assert_eq!(
        lsystem.step(&resolver, &Symbol::Module('m', vec![]), 3, &mut context),
        Err(RunError::Module { at: 3 })
    );
    assert_eq!(poses(&context), vec![13, 13]);
    assert_eq!(context.turtle, 13);

    let action: Box<dyn LSystemAction<i64>> = Box::new(Double);
    assert_eq!(
        context.carry_out(Ok(Some(action)), &Symbol::Variable('F'), 4),
        Ok(())
    );
    assert_eq!(poses(&context), vec![13, 13, 26]);
    assert_eq!(context.carry_out(Ok(None), &Symbol::Variable('F'), 5), Ok(()));
    assert_eq!(poses(&context), vec![13, 13, 26, 26]);
    assert_eq!(
        context.carry_out(
            Err(ActionError::MissingParameter { index: 1 }),
            &Symbol::Variable('F'),
            6
        ),
        Err(RunError::Action {
            at: 6,
            error: ActionError::MissingParameter { index: 1 }
        })
    );
    let restore: Box<dyn LSystemAction<i64>> = Box::new(PopTransformFromStackAction);
    assert_eq!(
        context.carry_out(Ok(Some(restore)), &Symbol::Constant(']'), 7),
        Err(RunError::Action {
            at: 7,
            error: ActionError::EmptyStack
        })
    );
    assert_eq!(poses(&context), vec![13, 13, 26, 26]);
}
