use vstd::prelude::*;

verus! {

/// The steps of a round, in the order in which a round passes through them.
#[derive(Clone, Copy, Debug, PartialEq, Eq, Structural, Hash)]
pub enum Step {
    /// Waiting for the proposal of the round.
    Propose,
    /// The prevote of the round is cast.
    Prevote,
    /// Two thirds of the prevotes are in, for no single value.
    PrevoteWait,
    /// The precommit of the round is cast.
    Precommit,
    /// Two thirds of the precommits are in, for no single value.
    PrecommitWait,
    /// A value is decided.
    Commit,
}

impl Step {
    /// The place of the step in a round, from 0.
    pub open spec fn rank(self) -> int {
        match self {
            Step::Propose => 0,
            Step::Prevote => 1,
            Step::PrevoteWait => 2,
            Step::Precommit => 3,
            Step::PrecommitWait => 4,
            Step::Commit => 5,
        }
    }

    /// The place of the step in a round as a byte.
    pub fn code(self) -> (code: u8)
        ensures
            code == self.rank(),
    {
        match self {
            Step::Propose => 0,
            Step::Prevote => 1,
            Step::PrevoteWait => 2,
            Step::Precommit => 3,
            Step::PrecommitWait => 4,
            Step::Commit => 5,
        }
    }

    /// The step at a place in a round; a byte above 5 stands for the last.
    pub open spec fn of_rank(code: u8) -> Step {
        if code == 0 {
            Step::Propose
        } else if code == 1 {
            Step::Prevote
        } else if code == 2 {
            Step::PrevoteWait
        } else if code == 3 {
            Step::Precommit
        } else if code == 4 {
            Step::PrecommitWait
        } else {
            Step::Commit
        }
    }

    /// The step at a place in a round; a byte above 5 stands for the last.
    pub fn from_code(code: u8) -> (step: Step)
        ensures
            step == Step::of_rank(code),
            code <= 5 ==> step.rank() == code,
    {
        if code == 0 {
            Step::Propose
        } else if code == 1 {
            Step::Prevote
        } else if code == 2 {
            Step::PrevoteWait
        } else if code == 3 {
            Step::Precommit
        } else if code == 4 {
            Step::PrecommitWait
        } else {
            Step::Commit
        }
    }
}

impl Default for Step {
    fn default() -> (step: Step)
        ensures
            step == Step::Propose,
    {
        Step::Propose
    }
}

} // verus!
