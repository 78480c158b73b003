//! Actions: their parameters, how a parameter is evaluated, and the
//! registry that makes actions from what a script says of them.
//!
//! The library does not compute with numbers. Of a parameter it says which
//! steps compute its value ([`ParamsResolver::get`]); carrying them out is
//! left to the caller.

use vstd::prelude::*;
use std::marker::PhantomData;
use crate::abs::{
    lemma_operands_smaller, params_view, Action, ActionParam, ActionView, BinOpKind, ExprKind,
    ExprView, ParamView,
};
use crate::grammar::{Symbol, SymbolView};
use crate::lsystem::ExecuteContext;
use crate::text::same_text;
use crate::number::{is_float_literal, Number};
use crate::text::{find_char, first_where, from_chars, to_chars};

verus! {

/// The parameters of an action, as the script wrote them.
#[derive(PartialEq, Debug)]
pub struct ParamsResolver {
    pub params: Vec<ActionParam>,
}

/// The view of a resolver: the views of its parameters.
pub open spec fn resolver_view(resolver: ParamsResolver) -> Seq<ParamView> {
    params_view(resolver.params@)
}

impl View for ParamsResolver {
    type V = Seq<ParamView>;

    open spec fn view(&self) -> Seq<ParamView> {
        resolver_view(*self)
    }
}

/// A copy of `params`, parameter by parameter.
pub fn clone_params(params: &Vec<ActionParam>) -> (r: Vec<ActionParam>)
    ensures
        params_view(r@) == params_view(params@),
{
    let mut out: Vec<ActionParam> = Vec::new();
    let mut i: usize = 0;
    while i < params.len()
        invariant
            i <= params@.len(),
            out@.len() == i,
            forall|j: int| 0 <= j < i ==> out@[j]@ == params@[j]@,
        decreases params@.len() - i,
    {
        out.push(params[i].clone());
        i += 1;
    }
    assert(params_view(out@) =~= params_view(params@));
    out
}

impl Clone for ParamsResolver {
    fn clone(&self) -> (r: Self)
        ensures
            r@ == self@,
    {
        ParamsResolver { params: clone_params(&self.params) }
    }
}

/// The parameter that one argument of a module stands for: a number
/// where it is a literal, else a constant.
pub open spec fn argument_of(piece: Seq<char>) -> ParamView {
    if is_float_literal(piece) {
        ParamView::Number(piece)
    } else {
        ParamView::Constant(piece)
    }
}

/// The parameters that the arguments of `text` from `lo` on stand for,
/// behind those in `read`. Commas part the arguments.
pub open spec fn arguments_from(text: Seq<char>, lo: int, read: Seq<ParamView>) -> Seq<ParamView>
    decreases text.len() - lo,
{
    let end = first_where(text, lo, text.len() as int, |c: char| c == ',');
    let all = read.push(argument_of(text.subrange(lo, end)));
    if 0 <= lo <= end < text.len() {
        arguments_from(text, end + 1, all)
    } else {
        all
    }
}

/// The parameters that the arguments of `text` stand for.
pub open spec fn arguments_of(text: Seq<char>) -> Seq<ParamView> {
    arguments_from(text, 0, Seq::empty())
}

impl ParamsResolver {
    /// Reads the arguments of a module: the pieces of `params` between its
    /// commas, each a number where it is a literal and a constant where it
    /// is none.
    pub fn from_string(params: String) -> (r: Self)
        ensures
            r@ == arguments_of(params@),
    {
        let chars = to_chars(params.as_str());
        let n = chars.len();
        let mut action_params: Vec<ActionParam> = Vec::new();
        let mut lo: usize = 0;
        assert(params_view(action_params@) =~= Seq::<ParamView>::empty());
        loop
            invariant_except_break
                arguments_of(params@) == arguments_from(
                    chars@,
                    lo as int,
                    params_view(action_params@),
                ),
            invariant
                chars@ == params@,
                n == chars@.len(),
                lo <= n,
            ensures
                arguments_of(params@) == params_view(action_params@),
            decreases n - lo,
        {
            let ghost read = params_view(action_params@);
            let end = find_char(chars.as_slice(), lo, n, ',');
            let param = match Number::from_chars(chars.as_slice(), lo, end) {
                Some(value) => ActionParam::Number(value),
                None => ActionParam::Constant(from_chars(chars.as_slice(), lo, end)),
            };
            action_params.push(param);
            assert(params_view(action_params@) =~= read.push(
                argument_of(chars@.subrange(lo as int, end as int)),
            ));
            if end < n {
                lo = end + 1;
            } else {
                break ;
            }
        }
        Self { params: action_params }
    }
}

/// Why a parameter has no value.
#[derive(PartialEq, Eq, Clone, Copy, Debug, Structural)]
pub enum EvalError {
    /// The parameter holds a constant; constants have no value yet.
    ConstantUnsupported,
    /// The parameter holds an operator that evaluation does not know.
    OperatorUnsupported(BinOpKind),
}

/// One step of the evaluation of a parameter, for a machine with a stack
/// of numbers.
#[derive(PartialEq, Debug)]
pub enum Instruction {
    /// Put the number on the stack.
    Push(Number),
    /// Draw a number between the two bounds and put it on the stack.
    Draw(Number, Number),
    /// Take the right and then the left operand off the stack, and put the
    /// result of the operator on it.
    Apply(BinOpKind),
}

/// The view of an [`Instruction`].
pub enum InstructionView {
    Push(Seq<char>),
    Draw(Seq<char>, Seq<char>),
    Apply(BinOpKind),
}

impl View for Instruction {
    type V = InstructionView;

    open spec fn view(&self) -> InstructionView {
        match self {
            Instruction::Push(n) => InstructionView::Push(n@),
            Instruction::Draw(low, high) => InstructionView::Draw(low@, high@),
            Instruction::Apply(op) => InstructionView::Apply(*op),
        }
    }
}

/// The views of a sequence of instructions.
pub open spec fn program_view(program: Seq<Instruction>) -> Seq<InstructionView> {
    Seq::new(program.len(), |i: int| program[i]@)
}

/// How a parameter is evaluated: the steps that compute its value, left
/// operand first; `None` where the parameter, or an operand that is reached,
/// is empty; a failure where a constant or an unknown operator is reached.
/// The right operand is not looked at where the left one is empty, and the
/// operator only where both operands have a value.
pub open spec fn evaluation(param: ParamView) -> Result<Option<Seq<InstructionView>>, EvalError>
    decreases param,
{
    match param {
        ParamView::Number(n) => Ok(Some(seq![InstructionView::Push(n)])),
        ParamView::Constant(_) => Err(EvalError::ConstantUnsupported),
        ParamView::Expression(ExprView::Binary(op, left, right)) => match evaluation(*left) {
            Ok(Some(first)) => match evaluation(*right) {
                Ok(Some(second)) => if op.is_arithmetic() {
                    Ok(Some(first + second + seq![InstructionView::Apply(op)]))
                } else {
                    Err(EvalError::OperatorUnsupported(op))
                },
                Ok(None) => Ok(None),
                Err(e) => Err(e),
            },
            Ok(None) => Ok(None),
            Err(e) => Err(e),
        },
        ParamView::Expression(ExprView::Random(low, high)) => Ok(
            Some(seq![InstructionView::Draw(low, high)]),
        ),
        ParamView::Empty => Ok(None),
    }
}

/// Whether `r` is what `expected` says of an evaluation.
pub open spec fn evaluates(
    r: Result<Option<Vec<Instruction>>, EvalError>,
    expected: Result<Option<Seq<InstructionView>>, EvalError>,
) -> bool {
    match expected {
        Ok(Some(program)) => r is Ok && r->Ok_0 is Some && program_view(r->Ok_0->Some_0@)
            == program,
        Ok(None) => r is Ok && r->Ok_0 is None,
        Err(e) => r is Err && r->Err_0 == e,
    }
}

fn is_arithmetic(op: BinOpKind) -> (r: bool)
    ensures
        r == op.is_arithmetic(),
{
    match op {
        BinOpKind::Add => true,
        BinOpKind::Sub => true,
        BinOpKind::Mul => true,
        BinOpKind::Div => true,
        _ => false,
    }
}

impl ParamsResolver {
    /// How the parameter at `index` is evaluated; `None` where there is no
    /// such parameter.
    pub fn get(&self, index: usize) -> (r: Result<Option<Vec<Instruction>>, EvalError>)
        ensures
            evaluates(
                r,
                if index < self@.len() {
                    evaluation(self@[index as int])
                } else {
                    Ok(None)
                },
            ),
    {
        if index < self.params.len() {
            self.action_param(&self.params[index])
        } else {
            Ok(None)
        }
    }

    fn action_param(&self, param: &ActionParam) -> (r: Result<Option<Vec<Instruction>>, EvalError>)
        ensures
            evaluates(r, evaluation(param@)),
        decreases *param,
    {
        match param {
            ActionParam::Number(number) => {
                let program = vec![Instruction::Push(number.clone())];
                assert(program_view(program@) =~= seq![InstructionView::Push(number@)]);
                Ok(Some(program))
            },
            ActionParam::Constant(_constant) => Err(EvalError::ConstantUnsupported),
            ActionParam::Expression(kind) => match kind {
                ExprKind::Binary(opt, lh, rh) => {
                    proof {
                        lemma_operands_smaller(*param);
                    }
                    let mut program = match self.action_param(lh.get())? {
                        Some(program) => program,
                        None => {
                            return Ok(None);
                        },
                    };
                    let mut second = match self.action_param(rh.get())? {
                        Some(program) => program,
                        None => {
                            return Ok(None);
                        },
                    };
                    if !is_arithmetic(*opt) {
                        return Err(EvalError::OperatorUnsupported(*opt));
                    }
                    let ghost first = program_view(program@);
                    let ghost rest = program_view(second@);
                    program.append(&mut second);
                    program.push(Instruction::Apply(*opt));
                    assert(program_view(program@) =~= first + rest + seq![
                        InstructionView::Apply(*opt),
                    ]);
                    Ok(Some(program))
                },
                ExprKind::Random(low, high) => {
                    let program = vec![Instruction::Draw(low.clone(), high.clone())];
                    assert(program_view(program@) =~= seq![InstructionView::Draw(low@, high@)]);
                    Ok(Some(program))
                },
            },
            ActionParam::Empty => Ok(None),
        }
    }
}

/// Why an action could not be made or could not act.
#[derive(PartialEq, Eq, Clone, Copy, Debug, Structural)]
pub enum ActionError {
    /// The action needs the parameter at `index`, and there is none.
    MissingParameter { index: usize },
    /// A parameter of the action has no value.
    Evaluation(EvalError),
    /// The action restores a pose, and none is saved.
    EmptyStack,
}

/// What a symbol of the generated string does to the drawing.
///
/// `T` is the pose that the caller draws with.
pub trait LSystemAction<T> {
    /// The name under which scripts call the action.
    ///
    /// An action that is verified says here what its `name` returns. For
    /// one that is not, this is the name of what it returns.
    closed spec fn action_name() -> Seq<char> where Self: Sized {
        arbitrary()
    }

    /// The symbol that the action stands for; read as `action_name` is.
    closed spec fn trigger_symbol(&self) -> SymbolView {
        arbitrary()
    }

    /// The action that `from_params` makes; read as `action_name` is.
    closed spec fn made(symbol: SymbolView, params: Seq<ParamView>) -> Result<
        Option<Self>,
        ActionError,
    > where Self: Sized {
        arbitrary()
    }

    /// The action for the symbol `symbol` with the parameters `params`;
    /// `None` where the parameters make no action.
    fn from_params(symbol: Symbol, params: &ParamsResolver) -> (r: Result<
        Option<Self>,
        ActionError,
    >) where Self: Sized
        ensures
            r == Self::made(symbol@, params@),
    ;

    /// The name under which scripts call the action.
    fn name() -> (r: &'static str) where Self: Sized
        ensures
            r@ == Self::action_name(),
    ;

    /// The symbol that the action stands for.
    fn trigger(&self) -> (r: Symbol)
        ensures
            r@ == self.trigger_symbol(),
    ;

    /// Whether the action, asked to act for `symbol` on the context
    /// `before`, may leave the context `after` and return `r`; read as
    /// `action_name` is.
    closed spec fn acts(
        &self,
        symbol: SymbolView,
        before: ExecuteContext<T>,
        after: ExecuteContext<T>,
        r: Result<(), ActionError>,
    ) -> bool {
        arbitrary()
    }

    /// Acts on `context`.
    fn execute(&self, symbol: &Symbol, context: &mut ExecuteContext<T>) -> (r: Result<
        (),
        ActionError,
    >)
        ensures
            self.acts(symbol@, *old(context), *final(context), r),
    ;
}

/// Whether `r` holds an action that acts as `action` does and stands for
/// the same symbol.
pub open spec fn acts_as<T, A: LSystemAction<T>>(
    r: Result<Option<Box<dyn LSystemAction<T>>>, ActionError>,
    action: A,
) -> bool {
    r matches Ok(Some(made)) && made.trigger_symbol() == action.trigger_symbol() && forall|
        symbol: SymbolView,
        before: ExecuteContext<T>,
        after: ExecuteContext<T>,
        result: Result<(), ActionError>,
    |
        #[trigger] made.acts(symbol, before, after, result) == action.acts(
            symbol,
            before,
            after,
            result,
        )
}

/// An action on its way into a box. It acts as the action that it holds;
/// boxed as a trait object, it is still known to do so, which an action of
/// a type that is not known is not.
pub struct MadeAction<A> {
    pub action: A,
}

impl<T, A: LSystemAction<T>> LSystemAction<T> for MadeAction<A> {
    open spec fn action_name() -> Seq<char> {
        A::action_name()
    }

    open spec fn trigger_symbol(&self) -> SymbolView {
        self.action.trigger_symbol()
    }

    open spec fn made(symbol: SymbolView, params: Seq<ParamView>) -> Result<
        Option<Self>,
        ActionError,
    > {
        match A::made(symbol, params) {
            Ok(Some(action)) => Ok(Some(MadeAction { action })),
            Ok(None) => Ok(None),
            Err(e) => Err(e),
        }
    }

    open spec fn acts(
        &self,
        symbol: SymbolView,
        before: ExecuteContext<T>,
        after: ExecuteContext<T>,
        r: Result<(), ActionError>,
    ) -> bool {
        self.action.acts(symbol, before, after, r)
    }

    fn from_params(symbol: Symbol, params: &ParamsResolver) -> (r: Result<
        Option<Self>,
        ActionError,
    >) {
        match A::from_params(symbol, params) {
            Ok(Some(action)) => Ok(Some(MadeAction { action })),
            Ok(None) => Ok(None),
            Err(e) => Err(e),
        }
    }

    fn name() -> (r: &'static str) {
        A::name()
    }

    fn trigger(&self) -> (r: Symbol) {
        self.action.trigger()
    }

    fn execute(&self, symbol: &Symbol, context: &mut ExecuteContext<T>) -> (r: Result<
        (),
        ActionError,
    >) {
        self.action.execute(symbol, context)
    }
}

/// What a factory makes of the description of an action.
pub enum Making {
    /// An action.
    Made,
    /// No action: the parameters make none.
    Nothing,
    /// A failure.
    Failed(ActionError),
}

/// Whether `r` is of the kind that `making` says.
pub open spec fn is_making<X>(r: Result<Option<X>, ActionError>, making: Making) -> bool {
    match making {
        Making::Made => r is Ok && r->Ok_0 is Some,
        Making::Nothing => r is Ok && r->Ok_0 is None,
        Making::Failed(e) => r is Err && r->Err_0 == e,
    }
}

/// What `made` is of: an action, none, or a failure.
pub open spec fn making_of<X>(made: Result<Option<X>, ActionError>) -> Making {
    match made {
        Ok(Some(_)) => Making::Made,
        Ok(None) => Making::Nothing,
        Err(e) => Making::Failed(e),
    }
}

/// Makes actions of one type from what a script says of them.
pub trait ActionFactory<T> {
    /// What the factory makes of `action`.
    ///
    /// A factory that is verified says here what its `build` returns. For
    /// one that is not, this is the name of what it returns.
    closed spec fn making(&self, action: ActionView) -> Making {
        arbitrary()
    }

    /// Whether `r` is what the factory may return for `action`; read as
    /// `making` is.
    closed spec fn builds(
        &self,
        action: ActionView,
        r: Result<Option<Box<dyn LSystemAction<T>>>, ActionError>,
    ) -> bool {
        arbitrary()
    }

    /// The action that `action` describes.
    fn build(&self, action: &Action) -> (r: Result<Option<Box<dyn LSystemAction<T>>>, ActionError>)
        ensures
            is_making(r, self.making(action@)),
            self.builds(action@, r),
    ;
}

/// The factory of the actions of type `A` for one trigger: it hands out
/// what `A::from_params` makes for the trigger and the parameters of the
/// action that is described.
pub struct ActionMaker<T, A> {
    pub trigger: Symbol,
    pub marker: PhantomData<(T, A)>,
}

/// What the factory of the actions of type `A` for `trigger` makes of
/// `action`.
pub open spec fn maker_making<T, A: LSystemAction<T>>(
    trigger: SymbolView,
    action: ActionView,
) -> Making {
    making_of(A::made(trigger, action.params))
}

/// Whether `r` is what the factory of the actions of type `A` for
/// `trigger` returns for `action`: what `A::from_params` makes for the
/// trigger and the parameters of `action`, the action handed out as one that
/// acts as the one that was made.
pub open spec fn maker_builds<T, A: LSystemAction<T>>(
    trigger: SymbolView,
    action: ActionView,
    r: Result<Option<Box<dyn LSystemAction<T>>>, ActionError>,
) -> bool {
    match A::made(trigger, action.params) {
        Ok(Some(from_params)) => acts_as(r, from_params),
        Ok(None) => r is Ok && r->Ok_0 is None,
        Err(e) => r is Err && r->Err_0 == e,
    }
}

impl<T, A: LSystemAction<T> + 'static> ActionFactory<T> for ActionMaker<T, A> {
    open spec fn making(&self, action: ActionView) -> Making {
        maker_making::<T, A>(self.trigger@, action)
    }

    open spec fn builds(
        &self,
        action: ActionView,
        r: Result<Option<Box<dyn LSystemAction<T>>>, ActionError>,
    ) -> bool {
        maker_builds::<T, A>(self.trigger@, action, r)
    }

    fn build(&self, action: &Action) -> (r: Result<
        Option<Box<dyn LSystemAction<T>>>,
        ActionError,
    >) {
        let from_params = A::from_params(self.trigger.clone(), &action.params);
        assert(from_params == A::made(self.trigger@, action@.params));
        match from_params {
            Ok(Some(inner)) => {
                let boxed: Box<dyn LSystemAction<T>> = Box::new(MadeAction { action: inner });
                assert forall|
                    symbol: SymbolView,
                    before: ExecuteContext<T>,
                    after: ExecuteContext<T>,
                    r: Result<(), ActionError>,
                |
                    #[trigger] boxed.acts(symbol, before, after, r) == inner.acts(
                        symbol,
                        before,
                        after,
                        r,
                    ) by {}
                // The action is wrapped step by step, so that it stays the
                // one that was boxed.
                let made = Some(boxed);
                Ok(made)
            },
            Ok(None) => Ok(None),
            Err(e) => Err(e),
        }
    }
}

/// One entry of the registry: the name of an action, the character of its
/// trigger, and the factory.
pub struct Registration<T, F: ?Sized + ActionFactory<T>> {
    pub name: String,
    pub trigger: char,
    pub factory: Box<F>,
    pub marker: PhantomData<T>,
}

/// The registry of actions, by name and trigger.
///
/// The registry is a list that is read as a map, since its keys hold text:
/// of two entries with one name and trigger the later one counts, as if it
/// had taken the place of the earlier one.
pub struct ActionResolver<T, F: ?Sized + ActionFactory<T> = dyn ActionFactory<T>> {
    /// The entries, in the order in which they were added. Of two entries
    /// with one name and trigger the later one counts.
    pub actions: Vec<Registration<T, F>>,
}

/// The place of the last of the first `n` entries with the name `name`
/// and the trigger `trigger`.
pub open spec fn registered_at<T, F: ?Sized + ActionFactory<T>>(
    actions: Seq<Registration<T, F>>,
    n: int,
    name: Seq<char>,
    trigger: char,
) -> Option<int>
    decreases n,
{
    if n <= 0 {
        None
    } else if actions[n - 1].name@ == name && actions[n - 1].trigger == trigger {
        Some(n - 1)
    } else {
        registered_at(actions, n - 1, name, trigger)
    }
}

impl<T, F: ?Sized + ActionFactory<T>> ActionResolver<T, F> {
    /// The place of the entry that counts for `name` and `trigger`.
    pub open spec fn registered(&self, name: Seq<char>, trigger: char) -> Option<int> {
        registered_at(self.actions@, self.actions@.len() as int, name, trigger)
    }

    fn find(&self, name: &str, trigger: char) -> (r: Option<usize>)
        ensures
            match r {
                Some(at) => at < self.actions@.len() && self.registered(name@, trigger) == Some(
                    at as int,
                ),
                None => self.registered(name@, trigger) is None,
            },
    {
        let mut i: usize = self.actions.len();
        while i > 0
            invariant
                i <= self.actions@.len(),
                self.registered(name@, trigger) == registered_at(
                    self.actions@,
                    i as int,
                    name@,
                    trigger,
                ),
            decreases i,
        {
            i -= 1;
            if self.actions[i].trigger == trigger && same_text(
                self.actions[i].name.as_str(),
                name,
            ) {
                return Some(i);
            }
        }
        None
    }

    /// Registers `factory` for the actions called `name` with the trigger
    /// `trigger`.
    pub fn register(&mut self, name: String, trigger: char, factory: Box<F>)
        ensures
            final(self).actions@.len() == old(self).actions@.len() + 1,
            final(self).actions@.last().name@ == name@,
            final(self).actions@.last().trigger == trigger,
            final(self).actions@.last().factory == factory,
            final(self).registered(name@, trigger) == Some(old(self).actions@.len() as int),
            forall|i: int|
                0 <= i < old(self).actions@.len() ==> final(self).actions@[i] == old(
                    self,
                ).actions@[i],
    {
        self.actions.push(Registration { name, trigger, factory, marker: PhantomData });
    }

    /// The character that registers and resolves `trigger`: that of a
    /// variable or a constant; a module has none.
    pub open spec fn key_of(trigger: SymbolView) -> Option<char> {
        match trigger {
            SymbolView::Variable(c) => Some(c),
            SymbolView::Constant(c) => Some(c),
            SymbolView::Module(_, _) => None,
        }
    }

    /// What resolving `action` for the symbol `trigger` makes: nothing
    /// where `trigger` is a module or where no factory is registered for
    /// the name of the action and the trigger; else what the factory makes
    /// of `action`.
    pub open spec fn resolved(&self, trigger: SymbolView, action: ActionView) -> Making {
        match Self::key_of(trigger) {
            Some(c) => match self.registered(action.name, c) {
                Some(at) => self.actions@[at].factory.making(action),
                None => Making::Nothing,
            },
            None => Making::Nothing,
        }
    }

    /// Whether `r` is what resolving `action` for the symbol `trigger` may
    /// return: what the factory that is registered for the name of the
    /// action and the trigger returns for `action`; no action where none
    /// is registered and where `trigger` is a module.
    pub open spec fn resolves(
        &self,
        trigger: SymbolView,
        action: ActionView,
        r: Result<Option<Box<dyn LSystemAction<T>>>, ActionError>,
    ) -> bool {
        let at = match Self::key_of(trigger) {
            Some(c) => self.registered(action.name, c),
            None => None,
        };
        match at {
            Some(at) => self.actions@[at].factory.builds(action, r),
            None => r is Ok && r->Ok_0 is None,
        }
    }

    /// Makes the action that `action` describes for the symbol `trigger`.
    pub fn resolve(&self, trigger: &Symbol, action: &Action) -> (r: Result<
        Option<Box<dyn LSystemAction<T>>>,
        ActionError,
    >)
        ensures
            is_making(r, self.resolved(trigger@, action@)),
            self.resolves(trigger@, action@, r),
    {
        let key = match trigger {
            Symbol::Constant(c) => *c,
            Symbol::Variable(c) => *c,
            Symbol::Module(_, _) => {
                return Ok(None);
            },
        };
        match self.find(action.name.as_str(), key) {
            Some(at) => self.actions[at].factory.build(action),
            None => Ok(None),
        }
    }
}

impl<T: 'static> ActionResolver<T, dyn ActionFactory<T>> {
    /// A registry without entries.
    pub fn new() -> (r: Self)
        ensures
            r.actions@.len() == 0,
    {
        ActionResolver { actions: Vec::new() }
    }

    /// Registers the actions of type `A` for the symbol `trigger`, under
    /// the name of `A`. A module registers nothing.
    pub fn add_action_resolver<A: LSystemAction<T> + 'static>(&mut self, trigger: Symbol)
        ensures
            match Self::key_of(trigger@) {
                Some(c) => {
                    &&& final(self).actions@.len() == old(self).actions@.len() + 1
                    &&& final(self).actions@.last().trigger == c
                    &&& final(self).actions@.last().name@ == A::action_name()
                    &&& final(self).registered(A::action_name(), c) == Some(
                        old(self).actions@.len() as int,
                    )
                    &&& forall|action: ActionView| #[trigger]
                        final(self).actions@.last().factory.making(action) == maker_making::<T, A>(
                            trigger@,
                            action,
                        )
                    &&& forall|
                        action: ActionView,
                        r: Result<Option<Box<dyn LSystemAction<T>>>, ActionError>,
                    | #[trigger]
                        final(self).actions@.last().factory.builds(action, r) == maker_builds::<
                            T,
                            A,
                        >(trigger@, action, r)
                    &&& forall|i: int|
                        0 <= i < old(self).actions@.len() ==> final(self).actions@[i] == old(
                            self,
                        ).actions@[i]
                },
                None => final(self).actions@ == old(self).actions@,
            },
    {
        let key = match &trigger {
            Symbol::Constant(c) => *c,
            Symbol::Variable(c) => *c,
            Symbol::Module(_, _) => {
                return ;
            },
        };
        let maker: ActionMaker<T, A> = ActionMaker { trigger, marker: PhantomData };
        let name = A::name().to_owned();
        self.register(name, key, Box::new(maker));
    }
}

} // verus!
