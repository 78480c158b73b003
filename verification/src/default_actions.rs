//! Actions that many L-systems share: saving the pose and restoring it.

use vstd::prelude::*;
use crate::abs::ParamView;
use crate::action::{ActionError, LSystemAction, ParamsResolver};
use crate::grammar::{Symbol, SymbolView};
use crate::lsystem::{alike, ExecuteContext};

verus! {

/// The saved poses after the pose `turtle` was saved on `stack`.
pub open spec fn saved<T>(turtle: T, stack: Seq<T>) -> Seq<T> {
    stack.push(turtle)
}

/// The pose and the saved poses after the pose on top of `stack` was
/// restored; `None` where no pose is saved.
pub open spec fn restored<T>(stack: Seq<T>) -> Option<(T, Seq<T>)> {
    if stack.len() > 0 {
        Some((stack.last(), stack.drop_last()))
    } else {
        None
    }
}

/// The saved poses after the poses in `poses` were saved on `stack`, one
/// after the other.
pub open spec fn saved_all<T>(poses: Seq<T>, stack: Seq<T>) -> Seq<T>
    decreases poses.len(),
{
    if poses.len() == 0 {
        stack
    } else {
        saved(poses.last(), saved_all(poses.drop_last(), stack))
    }
}

/// The pose and the saved poses after `count` poses were restored from
/// `stack`, starting with the pose `turtle`; `None` where fewer are saved.
pub open spec fn restored_times<T>(turtle: T, stack: Seq<T>, count: nat) -> Option<(T, Seq<T>)>
    decreases count,
{
    if count == 0 {
        Some((turtle, stack))
    } else {
        match restored(stack) {
            Some((pose, rest)) => restored_times(pose, rest, (count - 1) as nat),
            None => None,
        }
    }
}

/// Saving poses and then restoring as many gives back the pose that was
/// saved first, and the saved poses as they were before: whatever the pose
/// has become meanwhile, after the last restoring it is the pose that it was
/// at the first saving.
pub proof fn lemma_restoring_undoes_saving<T>(poses: Seq<T>, stack: Seq<T>, turtle: T)
    requires
        poses.len() > 0,
    ensures
        restored_times(turtle, saved_all(poses, stack), poses.len()) == Some((poses[0], stack)),
    decreases poses.len(),
{
    let all = saved_all(poses, stack);
    let before = saved_all(poses.drop_last(), stack);
    assert(all == before.push(poses.last()));
    assert(all.drop_last() =~= before);
    assert(restored(all) == Some((poses.last(), before)));
    if poses.len() == 1 {
        assert(poses.drop_last().len() == 0);
        assert(poses.last() == poses[0]);
        assert(restored_times(poses.last(), before, 0) == Some((poses.last(), before)));
    } else {
        lemma_restoring_undoes_saving(poses.drop_last(), stack, poses.last());
        assert(poses.drop_last()[0] == poses[0]);
    }
}

/// Saves the pose. It stands for `[`.
pub struct PushTranformToStackAction;

impl<T: Copy> LSystemAction<T> for PushTranformToStackAction {
    open spec fn action_name() -> Seq<char> {
        "PushTranformToStackAction"@
    }

    open spec fn trigger_symbol(&self) -> SymbolView {
        SymbolView::Constant('[')
    }

    open spec fn made(symbol: SymbolView, params: Seq<ParamView>) -> Result<
        Option<Self>,
        ActionError,
    > {
        Ok(Some(PushTranformToStackAction))
    }

    fn trigger(&self) -> Symbol {
        Symbol::Constant('[')
    }

    open spec fn acts(
        &self,
        symbol: SymbolView,
        before: ExecuteContext<T>,
        after: ExecuteContext<T>,
        r: Result<(), ActionError>,
    ) -> bool {
        &&& r == Ok::<(), ActionError>(())
        &&& after.transform_stack@ == saved(before.turtle, before.transform_stack@)
        &&& after.turtle == before.turtle
        &&& after.snapshot == before.snapshot
        &&& after.elements == before.elements
        &&& after.rng == before.rng
        &&& after.is_leave == before.is_leave
    }

    fn execute(&self, _symbol: &Symbol, context: &mut ExecuteContext<T>) -> (r: Result<
        (),
        ActionError,
    >) {
        context.transform_stack.push(context.turtle);
        Ok(())
    }

    fn from_params(_symbol: Symbol, _params: &ParamsResolver) -> Result<Option<Self>, ActionError> {
        Ok(Some(PushTranformToStackAction))
    }

    fn name() -> &'static str {
        "PushTranformToStackAction"
    }
}

/// Restores the pose that was saved last. It stands for `]`, and answers to
/// the name of the action that saves: the trigger tells the two apart.
pub struct PopTransformFromStackAction;

impl<T: Copy> LSystemAction<T> for PopTransformFromStackAction {
    open spec fn action_name() -> Seq<char> {
        "PushTranformToStackAction"@
    }

    open spec fn trigger_symbol(&self) -> SymbolView {
        SymbolView::Constant(']')
    }

    open spec fn made(symbol: SymbolView, params: Seq<ParamView>) -> Result<
        Option<Self>,
        ActionError,
    > {
        Ok(Some(PopTransformFromStackAction))
    }

    fn trigger(&self) -> Symbol {
        Symbol::Constant(']')
    }

    open spec fn acts(
        &self,
        symbol: SymbolView,
        before: ExecuteContext<T>,
        after: ExecuteContext<T>,
        r: Result<(), ActionError>,
    ) -> bool {
        &&& match restored(before.transform_stack@) {
            Some((pose, rest)) => {
                &&& r == Ok::<(), ActionError>(())
                &&& after.turtle == pose
                &&& after.transform_stack@ == rest
            },
            None => {
                &&& r == Err::<(), ActionError>(ActionError::EmptyStack)
                &&& after.turtle == before.turtle
                &&& after.transform_stack@ == before.transform_stack@
            },
        }
        &&& after.snapshot == before.snapshot
        &&& after.elements == before.elements
        &&& after.rng == before.rng
        &&& after.is_leave == before.is_leave
    }

    fn execute(&self, _symbol: &Symbol, context: &mut ExecuteContext<T>) -> (r: Result<
        (),
        ActionError,
    >) {
        match context.transform_stack.pop() {
            Some(pose) => {
                context.turtle = pose;
                Ok(())
            },
            None => Err(ActionError::EmptyStack),
        }
    }

    fn from_params(_symbol: Symbol, _params: &ParamsResolver) -> Result<Option<Self>, ActionError> {
        Ok(Some(PopTransformFromStackAction))
    }

    fn name() -> &'static str {
        "PushTranformToStackAction"
    }
}

/// What saving and restoring do is decided by the context: on contexts that
/// hold the same, either action returns the same and leaves contexts that
/// hold the same.
pub proof fn lemma_stack_actions_decided<T: Copy>(
    symbol: SymbolView,
    before: ExecuteContext<T>,
    again: ExecuteContext<T>,
    after: ExecuteContext<T>,
    after_again: ExecuteContext<T>,
    r: Result<(), ActionError>,
    r_again: Result<(), ActionError>,
)
    requires
        alike(before, again),
    ensures
        PushTranformToStackAction.acts(symbol, before, after, r) && PushTranformToStackAction.acts(
            symbol,
            again,
            after_again,
            r_again,
        ) ==> r == r_again && alike(after, after_again),
        PopTransformFromStackAction.acts(symbol, before, after, r)
            && PopTransformFromStackAction.acts(symbol, again, after_again, r_again) ==> r
            == r_again && alike(after, after_again),
{
}

} // verus!
