use vingt_et_un::{Action, PossibleAction};

#[test]
fn possible_action_action_partial_eq() {
    let possible_action = &&&PossibleAction(Action::Hit);
    assert!(possible_action.action() == Action::Hit);
}

#[test]
fn possible_action_equality() {
    assert!(PossibleAction(Action::Split) == PossibleAction(Action::Split));
    assert!(PossibleAction(Action::Split) != PossibleAction(Action::Stand));
    assert!(PossibleAction(Action::Double) == Action::Double);
    assert!(PossibleAction(Action::Double) != Action::Hit);
}
