use crate::engine::{step_relation, Game, GameView, Outcome};
use crate::events::Event;
use crate::geometry::{opposite_of, Direction};
use vstd::prelude::*;

verus! {

/// What the game loop must do after handing an event or a tick to the game.
#[derive(Debug, Clone, Copy, PartialEq, Eq, Structural)]
pub enum Reaction {
    /// Nothing happened.
    Ignored,
    /// The snake took one step.
    Stepped(Outcome),
    /// The game was paused: hide the field.
    Paused,
    /// The game was resumed: redraw the field.
    Resumed,
    /// The player quit.
    Quit,
}

impl Reaction {
    /// Whether the next tick's deadline starts over from now.
    pub open spec fn restarts_timer_spec(self) -> bool {
        match self {
            Reaction::Stepped(_) | Reaction::Paused | Reaction::Resumed => true,
            _ => false,
        }
    }

    /// Whether the game is over: the snake died, the board is full, or the
    /// player quit.
    pub open spec fn ends_game_spec(self) -> bool {
        match self {
            Reaction::Stepped(Outcome::Died) | Reaction::Stepped(Outcome::Won) | Reaction::Quit => true,
            _ => false,
        }
    }

    pub fn restarts_timer(self) -> (r: bool)
        ensures
            r == self.restarts_timer_spec(),
    {
        match self {
            Reaction::Stepped(_) | Reaction::Paused | Reaction::Resumed => true,
            _ => false,
        }
    }

    pub fn ends_game(self) -> (r: bool)
        ensures
            r == self.ends_game_spec(),
    {
        match self {
            Reaction::Stepped(Outcome::Died) | Reaction::Stepped(Outcome::Won) | Reaction::Quit => true,
            _ => false,
        }
    }
}

/// `v` turned to `dir`.
pub open spec fn turned(v: GameView, dir: Direction) -> GameView {
    GameView { direction: dir, ..v }
}

impl Game {
    /// Applies one player event. While paused, moves are ignored; a move the
    /// wrong way round is refused; an accepted move turns the snake and steps
    /// it at once. Pause flips the pause flag; quit changes nothing.
    pub fn handle_event(&mut self, event: Event) -> (r: Reaction)
        requires
            old(self).wf(),
            old(self)@.ending is None,
        ensures
            final(self).wf(),
            match event {
                Event::Move(dir) => if old(self)@.paused || dir == opposite_of(old(self)@.direction) {
                    r == Reaction::Ignored && final(self)@ == old(self)@
                } else {
                    (r matches Reaction::Stepped(o) && step_relation(
                        turned(old(self)@, dir),
                        final(self)@,
                        o,
                    ))
                },
                Event::Pause => {
                    &&& final(self)@ == (GameView { paused: !old(self)@.paused, ..old(self)@ })
                    &&& r == if old(self)@.paused { Reaction::Resumed } else { Reaction::Paused }
                },
                Event::Quit => r == Reaction::Quit && final(self)@ == old(self)@,
            },
    {
        match event {
            Event::Move(dir) => {
                if self.is_paused() {
                    return Reaction::Ignored;
                }
                if self.set_direction(dir) {
                    Reaction::Stepped(self.make_step())
                } else {
                    Reaction::Ignored
                }
            },
            Event::Pause => {
                if self.toggle_paused() {
                    Reaction::Paused
                } else {
                    Reaction::Resumed
                }
            },
            Event::Quit => Reaction::Quit,
        }
    }

    /// Applies the tick that comes when the step delay has run out: a step in
    /// the current direction, unless the game is paused.
    pub fn handle_tick(&mut self) -> (r: Reaction)
        requires
            old(self).wf(),
            old(self)@.ending is None,
        ensures
            final(self).wf(),
            old(self)@.paused ==> (r == Reaction::Ignored && final(self)@ == old(self)@),
            !old(self)@.paused ==> (r matches Reaction::Stepped(o) && step_relation(
                old(self)@,
                final(self)@,
                o,
            )),
    {
        if self.is_paused() {
            Reaction::Ignored
        } else {
            Reaction::Stepped(self.make_step())
        }
    }
}

} // verus!
