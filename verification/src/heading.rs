use vstd::prelude::*;
use crate::pattern::TurnCommand;

verus! {

/// The agent's facing direction: one of four compass values.
#[derive(Clone, Copy, Debug, PartialEq, Eq, Structural)]
pub enum Heading {
    North,
    South,
    East,
    West,
}

impl Heading {
    /// The direction after a quarter turn to the left.
    pub open spec fn left_of(self) -> Heading {
        match self {
            Heading::North => Heading::West,
            Heading::West => Heading::South,
            Heading::South => Heading::East,
            Heading::East => Heading::North,
        }
    }

    /// The direction after a quarter turn to the right.
    pub open spec fn right_of(self) -> Heading {
        match self {
            Heading::North => Heading::East,
            Heading::East => Heading::South,
            Heading::South => Heading::West,
            Heading::West => Heading::North,
        }
    }

    /// The opposite direction.
    pub open spec fn opposite_of(self) -> Heading {
        match self {
            Heading::North => Heading::South,
            Heading::South => Heading::North,
            Heading::East => Heading::West,
            Heading::West => Heading::East,
        }
    }

    /// The exhaustive transition table: the direction after one turn command.
    pub open spec fn after_turn(self, t: TurnCommand) -> Heading {
        match t {
            TurnCommand::TurnLeft => self.left_of(),
            TurnCommand::TurnRight => self.right_of(),
            TurnCommand::UTurn => self.opposite_of(),
            TurnCommand::NoTurn => self,
        }
    }

    /// Unit displacement along x of one step in this direction.
    pub open spec fn dx(self) -> int {
        match self {
            Heading::East => 1,
            Heading::West => -1,
            _ => 0,
        }
    }

    /// Unit displacement along y of one step in this direction.
    pub open spec fn dy(self) -> int {
        match self {
            Heading::North => 1,
            Heading::South => -1,
            _ => 0,
        }
    }

    /// Rotates a quarter turn to the left.
    pub fn rotate_left(&mut self)
        ensures
            *final(self) == old(self).left_of(),
    {
        match *self {
            Heading::North => *self = Heading::West,
            Heading::West => *self = Heading::South,
            Heading::South => *self = Heading::East,
            Heading::East => *self = Heading::North,
        }
    }

    /// Rotates a quarter turn to the right.
    pub fn rotate_right(&mut self)
        ensures
            *final(self) == old(self).right_of(),
    {
        match *self {
            Heading::North => *self = Heading::East,
            Heading::East => *self = Heading::South,
            Heading::South => *self = Heading::West,
            Heading::West => *self = Heading::North,
        }
    }

    /// Turns to the opposite direction.
    pub fn rotate_back(&mut self)
        ensures
            *final(self) == old(self).opposite_of(),
    {
        match *self {
            Heading::North => *self = Heading::South,
            Heading::South => *self = Heading::North,
            Heading::East => *self = Heading::West,
            Heading::West => *self = Heading::East,
        }
    }

    /// Applies one turn command.
    pub fn apply_turn(&mut self, t: TurnCommand)
        ensures
            *final(self) == old(self).after_turn(t),
    {
        match t {
            TurnCommand::TurnLeft => self.rotate_left(),
            TurnCommand::TurnRight => self.rotate_right(),
            TurnCommand::UTurn => self.rotate_back(),
            TurnCommand::NoTurn => (),
        }
    }
}

/// Law: a u-turn is an involution, no turn is the identity, and a left and a
/// right quarter turn cancel in either order.
pub proof fn lemma_turn_involutions(h: Heading)
    ensures
        h.after_turn(TurnCommand::UTurn).after_turn(TurnCommand::UTurn) == h,
        h.after_turn(TurnCommand::NoTurn) == h,
        h.after_turn(TurnCommand::TurnLeft).after_turn(TurnCommand::TurnRight) == h,
        h.after_turn(TurnCommand::TurnRight).after_turn(TurnCommand::TurnLeft) == h,
{
}

} // verus!
