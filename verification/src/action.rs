//! The actions a player may take on a hand, and the wrapper the engine
//! hands back for each action it actually offers.

use vstd::prelude::*;

verus! {

#[derive(PartialEq, Eq, Structural, Copy, Clone, Debug)]
pub enum Action {
    Hit,
    Stand,
    Double,
    Split,
    Surrender,
}

/// An action the engine has offered for the active hand.
#[derive(Copy, Clone, Debug)]
pub struct PossibleAction(pub Action);

impl PossibleAction {
    pub fn action(&self) -> (action: Action)
        ensures
            action == self.0,
    {
        self.0
    }
}

impl PartialEq for PossibleAction {
    fn eq(&self, other: &Self) -> (r: bool) {
        self.0 == other.0
    }
}

impl vstd::std_specs::cmp::PartialEqSpecImpl for PossibleAction {
    open spec fn obeys_eq_spec() -> bool {
        true
    }

    open spec fn eq_spec(&self, other: &Self) -> bool {
        self.0 == other.0
    }
}

impl PartialEq<Action> for PossibleAction {
    fn eq(&self, other: &Action) -> (r: bool) {
        self.0 == *other
    }
}

impl vstd::std_specs::cmp::PartialEqSpecImpl<Action> for PossibleAction {
    open spec fn obeys_eq_spec() -> bool {
        true
    }

    open spec fn eq_spec(&self, other: &Action) -> bool {
        self.0 == *other
    }
}

} // verus!
