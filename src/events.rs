use crate::geometry::Direction;
use std::sync::mpsc::Receiver;
use vstd::prelude::*;

verus! {

/// A key press as read from the terminal, reduced to what the game tells apart.
#[derive(Debug, Clone, Copy, PartialEq, Eq, Structural)]
pub enum KeyPress {
    Char(char),
    Ctrl(char),
    Left,
    Right,
    Up,
    Down,
    Esc,
    Other,
}

/// What the player asked the game to do.
#[derive(Debug, Clone, Copy, PartialEq, Eq, Structural)]
pub enum Event {
    Move(Direction),
    Pause,
    Quit,
}

/// The fixed key map: arrows, vi-style `h j k l` and `w a s d` move; `p` and
/// space pause; `q`, Esc and Ctrl-C quit; every other key means nothing.
pub open spec fn event_of_key(key: KeyPress) -> Option<Event> {
    match key {
        KeyPress::Char('h') | KeyPress::Char('a') | KeyPress::Left => Some(Event::Move(Direction::Left)),
        KeyPress::Char('j') | KeyPress::Char('s') | KeyPress::Down => Some(Event::Move(Direction::Down)),
        KeyPress::Char('k') | KeyPress::Char('w') | KeyPress::Up => Some(Event::Move(Direction::Up)),
        KeyPress::Char('l') | KeyPress::Char('d') | KeyPress::Right => Some(Event::Move(Direction::Right)),
        KeyPress::Char('q') | KeyPress::Ctrl('c') | KeyPress::Esc => Some(Event::Quit),
        KeyPress::Char('p') | KeyPress::Char(' ') => Some(Event::Pause),
        _ => None,
    }
}

impl Event {
    /// Decodes a key press; `None` for keys that have no meaning in the game.
    pub fn from_key(key: KeyPress) -> (r: Option<Event>)
        ensures
            r == event_of_key(key),
    {
        match key {
            KeyPress::Char('h') | KeyPress::Char('a') | KeyPress::Left => Some(Event::Move(Direction::Left)),
            KeyPress::Char('j') | KeyPress::Char('s') | KeyPress::Down => Some(Event::Move(Direction::Down)),
            KeyPress::Char('k') | KeyPress::Char('w') | KeyPress::Up => Some(Event::Move(Direction::Up)),
            KeyPress::Char('l') | KeyPress::Char('d') | KeyPress::Right => Some(Event::Move(Direction::Right)),
            KeyPress::Char('q') | KeyPress::Ctrl('c') | KeyPress::Esc => Some(Event::Quit),
            KeyPress::Char('p') | KeyPress::Char(' ') => Some(Event::Pause),
            _ => None,
        }
    }
}

/// std's `mpsc::Receiver`, declared so that a queue can hold one; its contents
/// are never looked into.
#[verifier::external_type_specification]
#[verifier::external_body]
#[verifier::reject_recursive_types(T)]
pub struct ExReceiver<T>(Receiver<T>);

/// Relies on std's `Receiver::try_recv`: it never blocks and hands out the
/// oldest value that was sent and not yet received, if there is one. What is
/// pending depends on another thread, so nothing is stated of the result.
#[verifier::external_body]
fn try_receive<E>(rx: &Receiver<E>) -> (r: Option<E>) {
    rx.try_recv().ok()
}

/// The consumer end of the key-event channel. A separate thread reads the
/// terminal and sends decoded events; the game loop polls without blocking.
#[verifier::reject_recursive_types(E)]
pub struct KeyEventsQueue<E> {
    rx: Receiver<E>,
}

impl<E> KeyEventsQueue<E> {
    /// Wraps the receiving half of the channel the key reader sends into.
    pub fn new(rx: Receiver<E>) -> (r: KeyEventsQueue<E>) {
        KeyEventsQueue { rx }
    }

    /// The next pending event in the order it was sent, or `None` at once when
    /// nothing is pending.
    pub fn pop(&self) -> (r: Option<E>) {
        try_receive(&self.rx)
    }
}

} // verus!
