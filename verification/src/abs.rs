//! The abstract syntax of an L-system script.
//!
//! Every node has a view that replaces owned text by `Seq<char>`; the
//! contracts of the parser are stated over those views.

use vstd::prelude::*;
use crate::action::{resolver_view, ParamsResolver};
use crate::number::Number;

verus! {

/// The name of a constant in a parameter expression.
pub type Constant = String;

/// A binary operator of a parameter expression.
#[derive(PartialEq, Eq, Clone, Copy, Debug, Structural)]
pub enum BinOpKind {
    Add,
    Sub,
    Mul,
    Div,
    Rem,
    BitXor,
    BitAnd,
    BitOr,
    Lt,
    Le,
    Ne,
    Ge,
    Gt,
}

impl BinOpKind {
    /// How the operator is written.
    pub open spec fn symbol(self) -> Seq<char> {
        match self {
            BinOpKind::Add => seq!['+'],
            BinOpKind::Sub => seq!['-'],
            BinOpKind::Mul => seq!['*'],
            BinOpKind::Div => seq!['/'],
            BinOpKind::Rem => seq!['%'],
            BinOpKind::BitXor => seq!['^'],
            BinOpKind::BitAnd => seq!['&'],
            BinOpKind::BitOr => seq!['|'],
            BinOpKind::Lt => seq!['<'],
            BinOpKind::Le => seq!['<', '='],
            BinOpKind::Ne => seq!['!', '='],
            BinOpKind::Ge => seq!['>', '='],
            BinOpKind::Gt => seq!['>'],
        }
    }

    /// Whether parameter evaluation knows the operator.
    pub open spec fn is_arithmetic(self) -> bool {
        self == BinOpKind::Add || self == BinOpKind::Sub || self == BinOpKind::Mul || self
            == BinOpKind::Div
    }

    /// The operator as text.
    pub fn to_string(&self) -> (r: String)
        ensures
            r@ == self.symbol(),
    {
        let mut out = String::new();
        match self {
            BinOpKind::Add => out.push('+'),
            BinOpKind::Sub => out.push('-'),
            BinOpKind::Mul => out.push('*'),
            BinOpKind::Div => out.push('/'),
            BinOpKind::Rem => out.push('%'),
            BinOpKind::BitXor => out.push('^'),
            BinOpKind::BitAnd => out.push('&'),
            BinOpKind::BitOr => out.push('|'),
            BinOpKind::Lt => out.push('<'),
            BinOpKind::Le => {
                out.push('<');
                out.push('=');
            },
            BinOpKind::Ne => {
                out.push('!');
                out.push('=');
            },
            BinOpKind::Ge => {
                out.push('>');
                out.push('=');
            },
            BinOpKind::Gt => out.push('>'),
        }
        assert(out@ =~= self.symbol());
        out
    }
}

/// An owned node of a syntax tree.
#[derive(PartialEq, Clone, Debug)]
pub struct P<T: ?Sized> {
    ptr: Box<T>,
}

impl<T> P<T> {
    /// The node that owns `ptr`.
    pub fn new(ptr: T) -> (r: Self)
        ensures
            r.value() == ptr,
    {
        Self { ptr: Box::new(ptr) }
    }

    /// What the node owns.
    pub closed spec fn value(&self) -> T {
        *self.ptr
    }

    /// A reference to what the node owns.
    pub fn get(&self) -> (r: &T)
        ensures
            *r == self.value(),
    {
        &*self.ptr
    }
}

/// A parameter of an action.
#[derive(PartialEq, Debug)]
pub enum ActionParam {
    Number(Number),
    Constant(Constant),
    Expression(ExprKind),
    /// No parameter.
    Empty,
}

/// An expression among the parameters of an action.
#[derive(PartialEq, Debug)]
pub enum ExprKind {
    /// An operator between two parameters.
    Binary(BinOpKind, P<ActionParam>, P<ActionParam>),
    /// A draw between a lower and an upper bound.
    Random(Number, Number),
}

/// The view of an [`ActionParam`].
pub enum ParamView {
    Number(Seq<char>),
    Constant(Seq<char>),
    Expression(ExprView),
    Empty,
}

/// The view of an [`ExprKind`].
pub enum ExprView {
    Binary(BinOpKind, Box<ParamView>, Box<ParamView>),
    Random(Seq<char>, Seq<char>),
}

/// The view of a parameter.
pub open spec fn param_view(p: ActionParam) -> ParamView
    decreases p,
{
    match p {
        ActionParam::Number(n) => ParamView::Number(n@),
        ActionParam::Constant(c) => ParamView::Constant(c@),
        ActionParam::Expression(e) => ParamView::Expression(expr_view(e)),
        ActionParam::Empty => ParamView::Empty,
    }
}

/// The view of an expression.
pub open spec fn expr_view(e: ExprKind) -> ExprView
    decreases e,
{
    match e {
        ExprKind::Binary(op, left, right) => ExprView::Binary(
            op,
            Box::new(param_view(left.value())),
            Box::new(param_view(right.value())),
        ),
        ExprKind::Random(low, high) => ExprView::Random(low@, high@),
    }
}

impl View for ActionParam {
    type V = ParamView;

    open spec fn view(&self) -> ParamView {
        param_view(*self)
    }
}

impl View for ExprKind {
    type V = ExprView;

    open spec fn view(&self) -> ExprView {
        expr_view(*self)
    }
}

impl Clone for ActionParam {
    fn clone(&self) -> (r: Self)
        ensures
            r@ == self@,
        decreases *self,
    {
        match self {
            ActionParam::Number(n) => ActionParam::Number(n.clone()),
            ActionParam::Constant(c) => ActionParam::Constant(c.clone()),
            ActionParam::Expression(e) => ActionParam::Expression(e.clone()),
            ActionParam::Empty => ActionParam::Empty,
        }
    }
}

impl Clone for ExprKind {
    fn clone(&self) -> (r: Self)
        ensures
            r@ == self@,
        decreases *self,
    {
        match self {
            ExprKind::Binary(op, left, right) => ExprKind::Binary(
                *op,
                P::new(left.get().clone()),
                P::new(right.get().clone()),
            ),
            ExprKind::Random(low, high) => ExprKind::Random(low.clone(), high.clone()),
        }
    }
}

/// The operands of a binary expression are smaller than the parameter that
/// holds it.
pub proof fn lemma_operands_smaller(param: ActionParam)
    requires
        param matches ActionParam::Expression(ExprKind::Binary(_, _, _)),
    ensures
        decreases_to!(param => param->Expression_0->Binary_1.value()),
        decreases_to!(param => param->Expression_0->Binary_2.value()),
{
}

/// The text of a parameter view: a number or a constant as written, an
/// expression with its operator first. `None` where the view holds an empty
/// parameter, which has no text.
pub open spec fn param_text(p: ParamView) -> Option<Seq<char>>
    decreases p,
{
    match p {
        ParamView::Number(n) => Some(n),
        ParamView::Constant(c) => Some(c),
        ParamView::Expression(e) => expr_text(e),
        ParamView::Empty => None,
    }
}

/// The text of an expression view: operator, left, right for a binary
/// expression; `low..high` for a draw.
pub open spec fn expr_text(e: ExprView) -> Option<Seq<char>>
    decreases e,
{
    match e {
        ExprView::Binary(op, left, right) => match (param_text(*left), param_text(*right)) {
            (Some(l), Some(r)) => Some(op.symbol() + l + r),
            _ => None,
        },
        ExprView::Random(low, high) => Some(low + seq!['.', '.'] + high),
    }
}

impl ActionParam {
    /// The parameter as text, `None` where it holds an empty parameter.
    pub fn to_string(&self) -> (r: Option<String>)
        ensures
            match r {
                Some(s) => param_text(self@) == Some(s@),
                None => param_text(self@) is None,
            },
        decreases *self,
    {
        match self {
            ActionParam::Number(number) => Some(number.as_str().to_owned()),
            ActionParam::Constant(c) => Some(c.clone()),
            ActionParam::Expression(e) => e.to_string(),
            ActionParam::Empty => None,
        }
    }
}

impl ExprKind {
    /// The expression as text, `None` where it holds an empty parameter.
    pub fn to_string(&self) -> (r: Option<String>)
        ensures
            match r {
                Some(s) => expr_text(self@) == Some(s@),
                None => expr_text(self@) is None,
            },
        decreases *self,
    {
        match self {
            ExprKind::Binary(op, lh, rh) => {
                let left = match lh.get().to_string() {
                    Some(l) => l,
                    None => {
                        return None;
                    },
                };
                let right = match rh.get().to_string() {
                    Some(r) => r,
                    None => {
                        return None;
                    },
                };
                let mut out = op.to_string();
                out.append(left.as_str());
                out.append(right.as_str());
                Some(out)
            },
            ExprKind::Random(low, high) => {
                let mut out = low.as_str().to_owned();
                out.push('.');
                out.push('.');
                out.append(high.as_str());
                assert(out@ =~= low@ + seq!['.', '.'] + high@);
                Some(out)
            },
        }
    }
}

/// An action bound to a symbol: its name and its parameters.
#[derive(PartialEq, Debug)]
pub struct Action {
    pub name: String,
    pub params: ParamsResolver,
}

/// The view of an [`Action`].
pub struct ActionView {
    pub name: Seq<char>,
    pub params: Seq<ParamView>,
}

impl View for Action {
    type V = ActionView;

    open spec fn view(&self) -> ActionView {
        ActionView { name: self.name@, params: resolver_view(self.params) }
    }
}

impl Clone for Action {
    fn clone(&self) -> (r: Self)
        ensures
            r@ == self@,
    {
        Action { name: self.name.clone(), params: self.params.clone() }
    }
}

impl Action {
    /// The action called `name` with the parameters `params`.
    pub fn new(name: String, params: Vec<ActionParam>) -> (r: Self)
        ensures
            r@ == (ActionView { name: name@, params: params_view(params@) }),
    {
        Self { name, params: ParamsResolver { params } }
    }
}

/// The views of a sequence of parameters.
pub open spec fn params_view(params: Seq<ActionParam>) -> Seq<ParamView> {
    Seq::new(params.len(), |i: int| params[i]@)
}

/// A statement of an L-system.
#[derive(PartialEq, Debug)]
pub enum StatementKind {
    /// The string that generation starts from.
    Axiom(String),
    /// A variable definition; it carries nothing.
    DefineVariable,
    /// A rule that replaces the first text by the second.
    Replace(String, String),
    /// The action that a symbol stands for.
    Interpret(Constant, Action),
}

/// The view of a [`StatementKind`].
pub enum StatementView {
    Axiom(Seq<char>),
    DefineVariable,
    Replace(Seq<char>, Seq<char>),
    Interpret(Seq<char>, ActionView),
}

impl View for StatementKind {
    type V = StatementView;

    open spec fn view(&self) -> StatementView {
        match self {
            StatementKind::Axiom(start) => StatementView::Axiom(start@),
            StatementKind::DefineVariable => StatementView::DefineVariable,
            StatementKind::Replace(from, to) => StatementView::Replace(from@, to@),
            StatementKind::Interpret(trigger, action) => StatementView::Interpret(
                trigger@,
                action@,
            ),
        }
    }
}

impl Clone for StatementKind {
    fn clone(&self) -> (r: Self)
        ensures
            r@ == self@,
    {
        match self {
            StatementKind::Axiom(start) => StatementKind::Axiom(start.clone()),
            StatementKind::DefineVariable => StatementKind::DefineVariable,
            StatementKind::Replace(from, to) => StatementKind::Replace(from.clone(), to.clone()),
            StatementKind::Interpret(trigger, action) => StatementKind::Interpret(
                trigger.clone(),
                action.clone(),
            ),
        }
    }
}

/// The views of a sequence of statements.
pub open spec fn statements_view(statements: Seq<StatementKind>) -> Seq<StatementView> {
    Seq::new(statements.len(), |i: int| statements[i]@)
}

/// What an item is.
#[derive(PartialEq, Debug)]
pub enum ItemKind {
    /// An L-system: its name and its statements.
    LSystem(String, Vec<StatementKind>),
}

/// A parsed script.
#[derive(PartialEq, Debug)]
pub struct Item {
    pub item_kind: ItemKind,
}

/// The view of an [`Item`]: the name of the L-system and its statements.
pub struct ItemView {
    pub name: Seq<char>,
    pub statements: Seq<StatementView>,
}

impl View for ItemKind {
    type V = ItemView;

    open spec fn view(&self) -> ItemView {
        match self {
            ItemKind::LSystem(name, statements) => ItemView {
                name: name@,
                statements: statements_view(statements@),
            },
        }
    }
}

impl View for Item {
    type V = ItemView;

    open spec fn view(&self) -> ItemView {
        self.item_kind@
    }
}

/// A copy of `statements`, statement by statement.
pub fn clone_statements(statements: &Vec<StatementKind>) -> (r: Vec<StatementKind>)
    ensures
        statements_view(r@) == statements_view(statements@),
{
    let mut out: Vec<StatementKind> = Vec::new();
    let mut i: usize = 0;
    while i < statements.len()
        invariant
            i <= statements@.len(),
            out@.len() == i,
            forall|j: int| 0 <= j < i ==> out@[j]@ == statements@[j]@,
        decreases statements@.len() - i,
    {
        out.push(statements[i].clone());
        i += 1;
    }
    assert(statements_view(out@) =~= statements_view(statements@));
    out
}

impl Clone for ItemKind {
    fn clone(&self) -> (r: Self)
        ensures
            r@ == self@,
    {
        match self {
            ItemKind::LSystem(name, statements) => ItemKind::LSystem(
                name.clone(),
                clone_statements(statements),
            ),
        }
    }
}

impl Clone for Item {
    fn clone(&self) -> (r: Self)
        ensures
            r@ == self@,
    {
        Item { item_kind: self.item_kind.clone() }
    }
}

/// A part of the successor of a replacement.
#[derive(PartialEq, Debug)]
pub enum ReplaceKind {
    Number(Number),
    Constant(Constant),
    Expression(ReplaceExprKind),
}

/// An expression in the successor of a replacement.
#[derive(PartialEq, Debug)]
pub enum ReplaceExprKind {
    /// An operator between two parts.
    Binary(BinOpKind, P<ReplaceKind>, P<ReplaceKind>),
}

/// The view of a [`ReplaceKind`].
pub enum ReplaceView {
    Number(Seq<char>),
    Constant(Seq<char>),
    Binary(BinOpKind, Box<ReplaceView>, Box<ReplaceView>),
}

/// The view of a part of a successor.
pub open spec fn replace_view(part: ReplaceKind) -> ReplaceView
    decreases part,
{
    match part {
        ReplaceKind::Number(n) => ReplaceView::Number(n@),
        ReplaceKind::Constant(c) => ReplaceView::Constant(c@),
        ReplaceKind::Expression(ReplaceExprKind::Binary(op, left, right)) => ReplaceView::Binary(
            op,
            Box::new(replace_view(left.value())),
            Box::new(replace_view(right.value())),
        ),
    }
}

impl View for ReplaceKind {
    type V = ReplaceView;

    open spec fn view(&self) -> ReplaceView {
        replace_view(*self)
    }
}

impl View for ReplaceExprKind {
    type V = ReplaceView;

    open spec fn view(&self) -> ReplaceView {
        replace_view(ReplaceKind::Expression(*self))
    }
}

/// The text of a part of a successor: a number or a constant as written,
/// an expression with its operator between its sides.
pub open spec fn replace_text(part: ReplaceView) -> Seq<char>
    decreases part,
{
    match part {
        ReplaceView::Number(n) => n,
        ReplaceView::Constant(c) => c,
        ReplaceView::Binary(op, left, right) => replace_text(*left) + op.symbol() + replace_text(
            *right,
        ),
    }
}

impl Clone for ReplaceKind {
    fn clone(&self) -> (r: Self)
        ensures
            r@ == self@,
        decreases *self,
    {
        match self {
            ReplaceKind::Number(n) => ReplaceKind::Number(n.clone()),
            ReplaceKind::Constant(c) => ReplaceKind::Constant(c.clone()),
            ReplaceKind::Expression(e) => ReplaceKind::Expression(e.clone()),
        }
    }
}

impl Clone for ReplaceExprKind {
    fn clone(&self) -> (r: Self)
        ensures
            r@ == self@,
        decreases *self,
    {
        match self {
            ReplaceExprKind::Binary(op, left, right) => ReplaceExprKind::Binary(
                *op,
                P::new(left.get().clone()),
                P::new(right.get().clone()),
            ),
        }
    }
}

impl ReplaceKind {
    /// The part as text.
    pub fn to_string(&self) -> (r: String)
        ensures
            r@ == replace_text(self@),
        decreases *self,
    {
        match self {
            ReplaceKind::Number(n) => n.as_str().to_owned(),
            ReplaceKind::Constant(c) => c.clone(),
            ReplaceKind::Expression(e) => e.to_string(),
        }
    }
}

impl ReplaceExprKind {
    /// The expression as text.
    pub fn to_string(&self) -> (r: String)
        ensures
            r@ == replace_text(self@),
        decreases *self,
    {
        match self {
            ReplaceExprKind::Binary(x, y, z) => {
                let mut out = y.get().to_string();
                let op = x.to_string();
                let right = z.get().to_string();
                out.append(op.as_str());
                out.append(right.as_str());
                out
            },
        }
    }
}

} // verus!
