//! The edits of a buffer, kept so that each can be undone and done again.

use vstd::prelude::*;
use crate::byte_rope::Rope;
use crate::delta::{DeltaView, RopeDelta};
use crate::selection::{Selection, SelectionView};

verus! {

/// One step of the history as specifications see it.
pub struct ActionView {
    pub forward: DeltaView,
    pub inverse: DeltaView,
    pub selection: SelectionView,
}

/// One step of the history: the edit, the edit that undoes it, and the
/// selection to go back to.
#[derive(Debug)]
pub struct Action {
    pub forward: RopeDelta,
    pub inverse: RopeDelta,
    pub selection: Selection,
}

impl View for Action {
    type V = ActionView;

    open spec fn view(&self) -> ActionView {
        ActionView { forward: self.forward@, inverse: self.inverse@, selection: self.selection@ }
    }
}

/// The steps that a vector of steps holds.
pub open spec fn action_views(list: Seq<Action>) -> Seq<ActionView> {
    Seq::new(list.len(), |i: int| list[i]@)
}

/// A history as specifications see it.
pub struct HistoryView {
    pub undo: Seq<ActionView>,
    pub redo: Seq<ActionView>,
    pub partial: Option<ActionView>,
}

impl HistoryView {
    /// The history once the pending step is a step like the others: it is
    /// the last step to undo, and nothing is left to do again.
    pub open spec fn committed(self) -> HistoryView {
        match self.partial {
            Some(step) => HistoryView {
                undo: self.undo.push(step),
                redo: Seq::empty(),
                partial: None,
            },
            None => self,
        }
    }

    /// Whether every selection that the history keeps has a region and a
    /// main region.
    pub open spec fn wf(self) -> bool {
        &&& forall|i: int| 0 <= i < self.undo.len() ==> (#[trigger] self.undo[i]).selection.wf()
        &&& forall|i: int| 0 <= i < self.redo.len() ==> (#[trigger] self.redo[i]).selection.wf()
        &&& self.partial matches Some(step) ==> step.selection.wf()
    }

    /// Whether the last step can be undone in a buffer of `len` bytes.
    pub open spec fn can_undo(self, len: nat) -> bool {
        let steps = self.committed().undo;
        steps.len() > 0 && steps.last().inverse.fits(len) && steps.last().inverse.new_len()
            <= usize::MAX
    }

    /// Whether the step undone last can be done again in a buffer of `len`
    /// bytes.
    pub open spec fn can_redo(self, len: nat) -> bool {
        let steps = self.committed().redo;
        steps.len() > 0 && steps.last().forward.fits(len) && steps.last().forward.new_len()
            <= usize::MAX
    }

    /// The history after an edit that was made as one step.
    pub open spec fn performed(self, step: ActionView) -> HistoryView {
        HistoryView { undo: self.committed().undo.push(step), redo: Seq::empty(), partial: None }
    }

    /// The history after an edit that goes into the pending step.
    pub open spec fn merged(self, step: ActionView) -> HistoryView {
        HistoryView {
            undo: self.undo,
            redo: self.redo,
            partial: Some(
                match self.partial {
                    Some(pending) => ActionView {
                        forward: pending.forward.compose(step.forward),
                        inverse: step.inverse.compose(pending.inverse),
                        selection: pending.selection,
                    },
                    None => step,
                },
            ),
        }
    }

    /// The history after its last step was undone with `selection` in place.
    pub open spec fn undone(self, selection: SelectionView) -> HistoryView {
        let base = self.committed();
        HistoryView {
            undo: base.undo.drop_last(),
            redo: base.redo.push(
                ActionView {
                    forward: base.undo.last().forward,
                    inverse: base.undo.last().inverse,
                    selection,
                },
            ),
            partial: None,
        }
    }

    /// The history after the step undone last was done again with `selection`
    /// in place.
    pub open spec fn redone(self, selection: SelectionView) -> HistoryView {
        let base = self.committed();
        HistoryView {
            undo: base.undo.push(
                ActionView {
                    forward: base.redo.last().forward,
                    inverse: base.redo.last().inverse,
                    selection,
                },
            ),
            redo: base.redo.drop_last(),
            partial: None,
        }
    }
}

/// The steps that can be undone and done again, and the pending step that
/// gathers edits which are to count as one.
#[derive(Debug)]
pub struct History {
    pub undo: Vec<Action>,
    pub redo: Vec<Action>,
    pub partial: Option<Action>,
}

impl View for History {
    type V = HistoryView;

    open spec fn view(&self) -> HistoryView {
        HistoryView {
            undo: action_views(self.undo@),
            redo: action_views(self.redo@),
            partial: match self.partial {
                Some(step) => Some(step@),
                None => None,
            },
        }
    }
}

/// The step that an edit of `base` makes.
pub open spec fn step_of(delta: DeltaView, base: Seq<u8>, selection: SelectionView) -> ActionView {
    ActionView { forward: delta, inverse: delta.invert(base), selection }
}

impl History {
    pub open spec fn wf(&self) -> bool {
        self@.wf()
    }

    /// A history without steps.
    pub fn new() -> (history: History)
        ensures
            history@.undo.len() == 0,
            history@.redo.len() == 0,
            history@.partial is None,
            history.wf(),
    {
        let history = History { undo: Vec::new(), redo: Vec::new(), partial: None };
        assert(history@.undo =~= Seq::<ActionView>::empty());
        assert(history@.redo =~= Seq::<ActionView>::empty());
        history
    }

    /// Makes the pending step, if there is one, a step like the others. What
    /// was undone before can then not be done again.
    pub fn commit_partial(&mut self)
        ensures
            final(self)@ == old(self)@.committed(),
            old(self).wf() ==> final(self).wf(),
    {
        let pending = self.partial.take();
        match pending {
            Some(step) => {
                proof {
                    assert(action_views(self.undo@.push(step)) =~= action_views(self.undo@).push(
                        step@,
                    ));
                }
                self.undo.push(step);
                self.redo = Vec::new();
                assert(action_views(self.redo@) =~= Seq::<ActionView>::empty());
                proof {
                    if old(self).wf() {
                        assert forall|i: int| 0 <= i < self@.undo.len() implies (
                        #[trigger] self@.undo[i]).selection.wf() by {
                            if i < old(self)@.undo.len() {
                                assert(self@.undo[i] == old(self)@.undo[i]);
                            }
                        }
                    }
                }
            },
            None => {},
        }
    }

    /// Records an edit of `base` as a step of its own. `selection` is the
    /// selection to go back to when the step is undone.
    pub fn perform_final(&mut self, base: &Rope, delta: RopeDelta, selection: Selection)
        requires
            old(self).wf(),
            delta@.ordered(),
            delta.applies_to(base@.len()),
            selection@.wf(),
        ensures
            final(self)@ == old(self)@.performed(step_of(delta@, base@, selection@)),
            final(self).wf(),
    {
        self.commit_partial();
        let inverse = delta.invert(base);
        let step = Action { forward: delta, inverse, selection };
        let ghost before = self@;
        proof {
            assert(action_views(self.undo@.push(step)) =~= action_views(self.undo@).push(step@));
        }
        self.undo.push(step);
        self.redo = Vec::new();
        assert(action_views(self.redo@) =~= Seq::<ActionView>::empty());
        proof {
            assert forall|i: int| 0 <= i < self@.undo.len() implies (
            #[trigger] self@.undo[i]).selection.wf() by {
                if i < before.undo.len() {
                    assert(self@.undo[i] == before.undo[i]);
                }
            }
        }
    }

    /// Records an edit of `base` as a part of the pending step. `selection`
    /// is the selection to go back to if the edit is the first part.
    pub fn perform_partial(&mut self, base: &Rope, delta: RopeDelta, selection: &Selection)
        requires
            old(self).wf(),
            delta@.ordered(),
            delta.applies_to(base@.len()),
            selection@.wf(),
        ensures
            final(self)@ == old(self)@.merged(step_of(delta@, base@, selection@)),
            final(self).wf(),
    {
        let inverse = delta.invert(base);
        let pending = self.partial.take();
        match pending {
            Some(first) => {
                let forward = first.forward.compose(&delta);
                let back = inverse.compose(&first.inverse);
                self.partial = Some(Action { forward, inverse: back, selection: first.selection });
            },
            None => {
                self.partial = Some(
                    Action { forward: delta, inverse, selection: selection.clone() },
                );
            },
        }
    }

    /// Takes back the last step: returns the edit that undoes it and the
    /// selection to go back to, and keeps the step to be done again, with
    /// `selection` as the selection to come back to. `None` where there is no
    /// step, or where the last step was not made in a buffer of the length
    /// of `base`.
    pub fn undo(&mut self, base: &Rope, selection: Selection) -> (step: Option<(RopeDelta, Selection)>)
        requires
            old(self).wf(),
            selection@.wf(),
        ensures
            final(self).wf(),
            step is Some <==> old(self)@.can_undo(base@.len()),
            step is None ==> final(self)@ == old(self)@.committed(),
            step matches Some((delta, restored)) ==> {
                &&& delta@ == old(self)@.committed().undo.last().inverse
                &&& restored@ == old(self)@.committed().undo.last().selection
                &&& final(self)@ == old(self)@.undone(selection@)
                &&& delta.applies_to(base@.len())
                &&& restored@.wf()
            },
    {
        self.commit_partial();
        let ghost steps = action_views(self.undo@);
        let ghost again = action_views(self.redo@);
        let count = self.undo.len();
        if count == 0 || !self.undo[count - 1].inverse.check_applies_to(base.len()) {
            return None;
        }
        match self.undo.pop() {
            None => None,
            Some(last) => {
                proof {
                    assert(steps.last() == last@);
                    assert(action_views(self.undo@) =~= steps.drop_last());
                    assert(steps[steps.len() - 1].selection.wf());
                }
                let delta = last.inverse.duplicate();
                let kept = Action { forward: last.forward, inverse: last.inverse, selection };
                proof {
                    assert(action_views(self.redo@.push(kept)) =~= again.push(kept@));
                }
                self.redo.push(kept);
                proof {
                    assert forall|i: int| 0 <= i < self@.undo.len() implies (
                    #[trigger] self@.undo[i]).selection.wf() by {
                        assert(self@.undo[i] == steps[i]);
                    }
                    assert forall|i: int| 0 <= i < self@.redo.len() implies (
                    #[trigger] self@.redo[i]).selection.wf() by {
                        if i < again.len() {
                            assert(self@.redo[i] == again[i]);
                        }
                    }
                }
                Some((delta, last.selection))
            },
        }
    }

    /// Does again the step that was undone last: returns its edit and the
    /// selection to come back to, and keeps the step to be undone, with
    /// `selection` as the selection to go back to. `None` where no step was
    /// undone since the last edit, or where that step was not made in a
    /// buffer of the length of `base`.
    pub fn redo(&mut self, base: &Rope, selection: Selection) -> (step: Option<(RopeDelta, Selection)>)
        requires
            old(self).wf(),
            selection@.wf(),
        ensures
            final(self).wf(),
            step is Some <==> old(self)@.can_redo(base@.len()),
            step is None ==> final(self)@ == old(self)@.committed(),
            step matches Some((delta, restored)) ==> {
                &&& delta@ == old(self)@.committed().redo.last().forward
                &&& restored@ == old(self)@.committed().redo.last().selection
                &&& final(self)@ == old(self)@.redone(selection@)
                &&& delta.applies_to(base@.len())
                &&& restored@.wf()
            },
    {
        self.commit_partial();
        let ghost steps = action_views(self.undo@);
        let ghost again = action_views(self.redo@);
        let count = self.redo.len();
        if count == 0 || !self.redo[count - 1].forward.check_applies_to(base.len()) {
            return None;
        }
        match self.redo.pop() {
            None => None,
            Some(last) => {
                proof {
                    assert(again.last() == last@);
                    assert(action_views(self.redo@) =~= again.drop_last());
                    assert(again[again.len() - 1].selection.wf());
                }
                let delta = last.forward.duplicate();
                let kept = Action { forward: last.forward, inverse: last.inverse, selection };
                proof {
                    assert(action_views(self.undo@.push(kept)) =~= steps.push(kept@));
                }
                self.undo.push(kept);
                proof {
                    assert forall|i: int| 0 <= i < self@.redo.len() implies (
                    #[trigger] self@.redo[i]).selection.wf() by {
                        assert(self@.redo[i] == again[i]);
                    }
                    assert forall|i: int| 0 <= i < self@.undo.len() implies (
                    #[trigger] self@.undo[i]).selection.wf() by {
                        if i < steps.len() {
                            assert(self@.undo[i] == steps[i]);
                        }
                    }
                }
                Some((delta, last.selection))
            },
        }
    }
}


/// Whether the selection of each of `steps` has a region and a main region.
fn steps_are_wf(steps: &Vec<Action>) -> (ok: bool)
    ensures
        ok == forall|i: int|
            0 <= i < steps@.len() ==> (#[trigger] action_views(steps@)[i]).selection.wf(),
{
    let mut i: usize = 0;
    while i < steps.len()
        invariant
            i <= steps@.len(),
            forall|k: int| 0 <= k < i ==> (#[trigger] action_views(steps@)[k]).selection.wf(),
        decreases steps@.len() - i,
    {
        if !steps[i].selection.is_wf() {
            assert(!action_views(steps@)[i as int].selection.wf());
            return false;
        }
        i += 1;
    }
    true
}

impl History {
    /// Whether every selection that the history keeps has a region and a
    /// main region.
    pub fn is_wf(&self) -> (ok: bool)
        ensures
            ok == self.wf(),
    {
        let pending = match &self.partial {
            Some(step) => step.selection.is_wf(),
            None => true,
        };
        let undo = steps_are_wf(&self.undo);
        let redo = steps_are_wf(&self.redo);
        proof {
            assert(self@.undo == action_views(self.undo@));
            assert(self@.redo == action_views(self.redo@));
            assert(pending == (self@.partial matches Some(step) ==> step.selection.wf()));
        }
        pending && undo && redo
    }
}

} // verus!
