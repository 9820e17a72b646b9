use sadari::interact::{validate_input, InputIssue, State};

#[test]
fn states_step_forward_and_back() {
    assert_eq!(State::Idle.next_state(), State::NameInput);
    assert_eq!(State::NameInput.next_state(), State::ResultInput);
    assert_eq!(State::ResultInput.next_state(), State::BeforeDone);
    assert_eq!(State::BeforeDone.next_state(), State::Done);
    assert_eq!(State::Done.next_state(), State::Done);
    assert_eq!(State::Quit.next_state(), State::Quit);

    assert_eq!(State::NameInput.previous_state(), State::Idle);
    assert_eq!(State::ResultInput.previous_state(), State::NameInput);
    assert_eq!(State::BeforeDone.previous_state(), State::ResultInput);
    assert_eq!(State::Idle.previous_state(), State::Idle);
    assert_eq!(State::Done.previous_state(), State::Done);
}

#[test]
fn validate_names_by_length() {
    assert_eq!(validate_input(&State::NameInput, 2, 0), (true, None));
    assert_eq!(validate_input(&State::NameInput, 12, 0), (true, None));
    assert_eq!(
        validate_input(&State::NameInput, 1, 0),
        (false, Some(InputIssue::LengthOutOfRange))
    );
    assert_eq!(
        validate_input(&State::NameInput, 13, 0),
        (false, Some(InputIssue::LengthOutOfRange))
    );
}

#[test]
fn validate_results_by_length_and_match() {
    assert_eq!(validate_input(&State::ResultInput, 3, 3), (true, None));
    assert_eq!(validate_input(&State::BeforeDone, 3, 3), (true, None));
    assert_eq!(
        validate_input(&State::ResultInput, 3, 4),
        (false, Some(InputIssue::LengthMismatch))
    );
    assert_eq!(
        validate_input(&State::BeforeDone, 1, 1),
        (false, Some(InputIssue::LengthOutOfRange))
    );
}

#[test]
fn validate_accepts_nothing_elsewhere() {
    assert_eq!(validate_input(&State::Idle, 3, 3), (false, None));
    assert_eq!(validate_input(&State::Done, 3, 3), (false, None));
    assert_eq!(validate_input(&State::Quit, 3, 3), (false, None));
}
