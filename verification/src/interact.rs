//! The interactive-setup state machine: which question the prompt is on,
//! how answers move it forward or back, and when the entered name and result
//! lists are acceptable.  Printing and reading live with the caller; only
//! the decisions are made here.

use vstd::prelude::*;

verus! {

/// The most lanes a round may have.
pub const MAX_NUMBER_OF_BLOCKS: usize = 12;

/// The fewest lanes a round may have.
pub const MIN_NUMBER_OF_BLOCKS: usize = 2;

/// Where the interactive setup stands.
#[derive(Debug, Clone, Copy, PartialEq, Eq, Structural)]
pub enum State {
    Idle,
    NameInput,
    ResultInput,
    BeforeDone,
    Done,
    Quit,
}

impl State {
    /// The next question after this one is answered; the closing states
    /// stay where they are.
    pub fn next_state(self) -> (r: State)
        ensures
            r == (match self {
                State::Idle => State::NameInput,
                State::NameInput => State::ResultInput,
                State::ResultInput => State::BeforeDone,
                State::BeforeDone => State::Done,
                _ => self,
            }),
    {
        match self {
            State::Idle => State::NameInput,
            State::NameInput => State::ResultInput,
            State::ResultInput => State::BeforeDone,
            State::BeforeDone => State::Done,
            _ => self,
        }
    }

    /// The question before this one, for a rejected answer; the first and
    /// the closing states stay where they are.
    pub fn previous_state(self) -> (r: State)
        ensures
            r == (match self {
                State::NameInput => State::Idle,
                State::ResultInput => State::NameInput,
                State::BeforeDone => State::ResultInput,
                _ => self,
            }),
    {
        match self {
            State::NameInput => State::Idle,
            State::ResultInput => State::NameInput,
            State::BeforeDone => State::ResultInput,
            _ => self,
        }
    }
}

/// Why an entered setup was rejected.
#[derive(Debug, Clone, Copy, PartialEq, Eq, Structural)]
pub enum InputIssue {
    /// A list's length falls outside the allowed lane counts.
    LengthOutOfRange,
    /// The name and result lists differ in length.
    LengthMismatch,
}

/// Judges the lists entered so far against the state the prompt is on:
/// while names are confirmed, the name list must hold an allowed number of
/// entries; while results are entered or confirmed, the result list must
/// match the name list in length and hold an allowed number of entries.
/// States that ask no question accept nothing.
pub fn validate_input(state: &State, name_len: usize, result_len: usize) -> (r: (
    bool,
    Option<InputIssue>,
))
    ensures
        r == (match state {
            State::NameInput => {
                if MIN_NUMBER_OF_BLOCKS <= name_len <= MAX_NUMBER_OF_BLOCKS {
                    (true, None::<InputIssue>)
                } else {
                    (false, Some(InputIssue::LengthOutOfRange))
                }
            },
            State::ResultInput | State::BeforeDone => {
                if name_len != result_len {
                    (false, Some(InputIssue::LengthMismatch))
                } else if MIN_NUMBER_OF_BLOCKS <= result_len <= MAX_NUMBER_OF_BLOCKS {
                    (true, None::<InputIssue>)
                } else {
                    (false, Some(InputIssue::LengthOutOfRange))
                }
            },
            _ => (false, None::<InputIssue>),
        }),
{
    match state {
        State::NameInput => {
            if MIN_NUMBER_OF_BLOCKS <= name_len && name_len <= MAX_NUMBER_OF_BLOCKS {
                (true, None)
            } else {
                (false, Some(InputIssue::LengthOutOfRange))
            }
        },
        State::ResultInput | State::BeforeDone => {
            if name_len != result_len {
                (false, Some(InputIssue::LengthMismatch))
            } else if MIN_NUMBER_OF_BLOCKS <= result_len && result_len <= MAX_NUMBER_OF_BLOCKS {
                (true, None)
            } else {
                (false, Some(InputIssue::LengthOutOfRange))
            }
        },
        _ => (false, None),
    }
}

} // verus!
