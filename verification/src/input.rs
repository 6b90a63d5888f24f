//! Translation of raw input events into simulation commands.
//!
//! The one action key is context-sensitive: it makes the player jump while
//! a round is running and restarts the world once the round is over.  The
//! escape key asks the host to quit; every other event is ignored.

use crate::entity::{Entity, JUMP_FORCE};
use crate::sim::{initial_player, SimulationState};
use crate::columns::is_fresh_batch;
use vstd::prelude::*;

verus! {

/// A raw input event, as the host's event loop reports it.
#[derive(Clone, Copy, PartialEq, Eq, Structural, Debug)]
pub enum InputEvent {
    /// The escape / quit key went down.
    KeyEscape,
    /// The action key went down.
    KeySpace,
    /// Anything else.
    Other,
}

/// A simulation command derived from one input event and the current game
/// phase.
#[derive(Clone, Copy, PartialEq, Eq, Structural, Debug)]
pub enum Command {
    /// Leave the process.
    Quit,
    /// Give the player an upward impulse.
    Jump,
    /// Reset the world and start a new round.
    Restart,
    /// Do nothing.
    Idle,
}

/// The command an event maps to: escape always quits; the action key jumps
/// while a player is present and restarts while none is; everything else
/// is ignored.
pub open spec fn spec_command_for(ev: InputEvent, playing: bool) -> Command {
    match ev {
        InputEvent::KeyEscape => Command::Quit,
        InputEvent::KeySpace => if playing {
            Command::Jump
        } else {
            Command::Restart
        },
        InputEvent::Other => Command::Idle,
    }
}

/// Maps one raw event to its simulation command.
pub fn command_for(ev: InputEvent, playing: bool) -> (c: Command)
    ensures
        c == spec_command_for(ev, playing),
{
    match ev {
        InputEvent::KeyEscape => Command::Quit,
        InputEvent::KeySpace => {
            if playing {
                Command::Jump
            } else {
                Command::Restart
            }
        },
        InputEvent::Other => Command::Idle,
    }
}

impl SimulationState {
    /// Feeds one input event to the simulation and carries out the command
    /// it maps to; the result says whether the host should quit.
    pub fn process_event(&mut self, ev: InputEvent) -> (quit: bool)
        requires
            old(self).wf(),
        ensures
            final(self).wf(),
            quit == (spec_command_for(ev, old(self).player is Some) is Quit),
            ({
                let cmd = spec_command_for(ev, old(self).player is Some);
                match cmd {
                    Command::Jump => {
                        &&& final(self).player == Some(
                            Entity { y_vel: JUMP_FORCE, ..old(self).player->0 },
                        )
                        &&& final(self).columns == old(self).columns
                    },
                    Command::Restart => {
                        &&& final(self).player == Some(initial_player())
                        &&& is_fresh_batch(final(self).columns@)
                    },
                    Command::Quit => *final(self) == *old(self),
                    Command::Idle => *final(self) == *old(self),
                }
            }),
    {
        match command_for(ev, self.player.is_some()) {
            Command::Jump => {
                match &mut self.player {
                    Some(p) => p.jump(),
                    None => {},
                }
                false
            },
            Command::Restart => {
                self.restart();
                false
            },
            Command::Quit => true,
            Command::Idle => false,
        }
    }
}

} // verus!
