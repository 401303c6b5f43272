//! The count that is typed before a command.

use vstd::prelude::*;
use vstd::string::StringExecFns;
use crate::keymap::Event;
use crate::text::{decimal_digit, digits, hex_value, push_number};

verus! {

/// The count typed so far.
#[derive(Clone, Copy, Debug, PartialEq, Eq, Structural)]
pub enum State {
    /// No digit was typed.
    Idle,
    /// The digits typed make `count`.
    Counting { count: usize },
}

/// What an event does to the count.
#[derive(Clone, Copy, Debug, PartialEq, Eq, Structural)]
pub enum Transition {
    /// The event is no digit: the count is for the command it stands for.
    Pass,
    /// The event is a digit: the count goes on.
    Update(State),
}

/// The count with the digit `d` behind it. A count that would be no `usize`
/// stays at the greatest.
pub open spec fn with_digit(count: usize, d: u8) -> usize {
    if count * 10 + d > usize::MAX {
        usize::MAX
    } else {
        (count * 10 + d) as usize
    }
}

impl State {
    pub open spec fn spec_to_count(self) -> usize {
        match self {
            State::Idle => 1,
            State::Counting { count } => count,
        }
    }

    pub open spec fn spec_transition(self, event: Event) -> Transition {
        match event.typed() {
            Some(c) => match hex_value(c) {
                Some(d) => if d < 10 {
                    Transition::Update(
                        State::Counting {
                            count: match self {
                                State::Idle => d as usize,
                                State::Counting { count } => with_digit(count, d),
                            },
                        },
                    )
                } else {
                    Transition::Pass
                },
                None => Transition::Pass,
            },
            None => Transition::Pass,
        }
    }

    /// The count to use: one where none was typed.
    #[verifier::when_used_as_spec(spec_to_count)]
    pub fn to_count(self) -> (count: usize)
        ensures
            count == self.spec_to_count(),
    {
        match self {
            State::Idle => 1,
            State::Counting { count } => count,
        }
    }

    /// What `event` does to the count: a digit goes behind the digits typed
    /// so far.
    pub fn transition(self, event: &Event) -> (next: Transition)
        ensures
            next == self.spec_transition(*event),
    {
        match event.typed() {
            Some(c) => match decimal_digit(c) {
                Some(d) => {
                    let count: usize = match self {
                        State::Idle => d as usize,
                        State::Counting { count } => match count.checked_mul(10) {
                            Some(tens) => match tens.checked_add(d as usize) {
                                Some(sum) => sum,
                                None => usize::MAX,
                            },
                            None => usize::MAX,
                        },
                    };
                    Transition::Update(State::Counting { count })
                },
                None => Transition::Pass,
            },
            None => Transition::Pass,
        }
    }

    /// What the status line shows of the count: nothing, or the count in
    /// brackets after a space.
    pub open spec fn shown(self) -> Seq<char> {
        match self {
            State::Idle => Seq::empty(),
            State::Counting { count } => seq![' ', '('] + digits(count as nat, 10) + seq![')'],
        }
    }

    /// Appends to `text` what the status line shows of the count.
    pub fn show(self, text: &mut String)
        ensures
            final(text)@ == old(text)@ + self.shown(),
    {
        let ghost before = text@;
        match self {
            State::Idle => {
                assert(before + Seq::<char>::empty() =~= before);
            },
            State::Counting { count } => {
                proof {
                    reveal_strlit(" (");
                    reveal_strlit(")");
                }
                text.append(" (");
                push_number(text, count, 10);
                text.append(")");
                assert(text@ =~= before + (seq![' ', '('] + digits(count as nat, 10) + seq![')']));
            },
        }
    }
}

} // verus!
