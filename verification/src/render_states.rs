//! What became of all elements of a frame.

use std::collections::HashMap;
use vstd::prelude::*;
use crate::element::{RenderElementPresentationState, RenderElementState, RenderingReason};

verus! {

broadcast use vstd::std_specs::hash::group_hash_axioms;

/// The state of every element that was looked at, by element id.
pub struct RenderElementStates {
    pub states: HashMap<u64, RenderElementState>,
}

impl View for RenderElementStates {
    type V = Map<u64, RenderElementState>;

    open spec fn view(&self) -> Map<u64, RenderElementState> {
        self.states@
    }
}

/// Whether no element has more visible pixels than the bound.
pub open spec fn areas_within(states: Map<u64, RenderElementState>, bound: int) -> bool {
    forall|id: u64| states.contains_key(id) ==> (#[trigger] states[id]).visible_area <= bound
}

/// The states after an element turned out to be hidden. Of an element that occurs several times
/// an earlier state is kept.
pub open spec fn with_hidden(states: Map<u64, RenderElementState>, id: u64) -> Map<
    u64,
    RenderElementState,
> {
    if states.contains_key(id) {
        states
    } else {
        states.insert(id, RenderElementState::skipped_spec())
    }
}

/// The states after a part of an element was shown directly.
pub open spec fn with_zero_copy(
    states: Map<u64, RenderElementState>,
    id: u64,
    visible_area: usize,
) -> Map<u64, RenderElementState> {
    if states.contains_key(id) {
        states.insert(
            id,
            RenderElementState {
                presentation_state: RenderElementPresentationState::ZeroCopy,
                visible_area: (states[id].visible_area + visible_area) as usize,
                ..states[id]
            },
        )
    } else {
        states.insert(id, RenderElementState::zero_copy_spec(visible_area))
    }
}

/// The states after a part of an element was drawn, with what the renderer reports of it: a
/// hidden element takes the report over, any other one becomes more visible.
pub open spec fn with_rendered(
    states: Map<u64, RenderElementState>,
    id: u64,
    state: RenderElementState,
) -> Map<u64, RenderElementState> {
    if states.contains_key(id) {
        if states[id].presentation_state == RenderElementPresentationState::Skipped {
            states.insert(id, state)
        } else {
            states.insert(
                id,
                RenderElementState {
                    visible_area: (states[id].visible_area + state.visible_area) as usize,
                    ..states[id]
                },
            )
        }
    } else {
        states.insert(id, state)
    }
}

/// The states after an element could not be shown directly.
pub open spec fn with_reason(
    states: Map<u64, RenderElementState>,
    id: u64,
    reason: Option<RenderingReason>,
) -> Map<u64, RenderElementState> {
    match reason {
        Some(reason) => if states.contains_key(id) {
            states
        } else {
            states.insert(id, RenderElementState::rendering_with_reason_spec(reason))
        },
        None => states,
    }
}

impl RenderElementStates {
    pub fn new() -> (r: RenderElementStates)
        ensures
            r@ == Map::<u64, RenderElementState>::empty(),
    {
        RenderElementStates { states: HashMap::new() }
    }

    /// The state of an element.
    pub fn get(&self, id: u64) -> (r: Option<RenderElementState>)
        ensures
            r == (if self@.contains_key(id) {
                Some(self@[id])
            } else {
                None
            }),
    {
        match self.states.get(&id) {
            Some(state) => Some(*state),
            None => None,
        }
    }

    pub fn note_hidden(&mut self, id: u64)
        ensures
            final(self)@ == with_hidden(old(self)@, id),
    {
        if !self.states.contains_key(&id) {
            self.states.insert(id, RenderElementState::skipped());
        }
    }

    pub fn show_directly(&mut self, id: u64, visible_area: usize)
        requires
            old(self)@.contains_key(id) ==> old(self)@[id].visible_area + visible_area
                <= usize::MAX,
        ensures
            final(self)@ == with_zero_copy(old(self)@, id, visible_area),
    {
        match self.get(id) {
            Some(state) => {
                let shown = RenderElementState {
                    presentation_state: RenderElementPresentationState::ZeroCopy,
                    visible_area: state.visible_area + visible_area,
                    ..state
                };
                self.states.insert(id, shown);
            },
            None => {
                self.states.insert(id, RenderElementState::zero_copy(visible_area));
            },
        }
    }

    pub fn render(&mut self, id: u64, reported: RenderElementState)
        requires
            old(self)@.contains_key(id) ==> old(self)@[id].visible_area + reported.visible_area
                <= usize::MAX,
        ensures
            final(self)@ == with_rendered(old(self)@, id, reported),
    {
        match self.get(id) {
            Some(state) => {
                let merged = match state.presentation_state {
                    RenderElementPresentationState::Skipped => reported,
                    _ => RenderElementState {
                        visible_area: state.visible_area + reported.visible_area,
                        ..state
                    },
                };
                self.states.insert(id, merged);
            },
            None => {
                self.states.insert(id, reported);
            },
        }
    }

    pub fn give_reason(&mut self, id: u64, reason: Option<RenderingReason>)
        ensures
            final(self)@ == with_reason(old(self)@, id, reason),
    {
        if let Some(reason) = reason {
            if !self.states.contains_key(&id) {
                self.states.insert(id, RenderElementState::rendering_with_reason(reason));
            }
        }
    }

    /// Forgets an element.
    pub fn remove(&mut self, id: u64)
        ensures
            final(self)@ == old(self)@.remove(id),
    {
        self.states.remove(&id);
        assert(self@ =~= old(self)@.remove(id));
    }
}

} // verus!
