//! Keyboard input mapping: arrow keys spawn, `R` streams random spawns, `Esc` ends the session.

use vstd::prelude::*;

use crate::intersection::Cardinal;

verus! {

/// Keys the simulation reacts to; every other key is `Other`.
#[derive(Debug, Clone, Copy, PartialEq, Eq, Structural)]
pub enum Key {
    Up,
    Down,
    Left,
    Right,
    R,
    Escape,
    Other,
}

/// High-level input events.
#[derive(Debug, Clone, Copy, PartialEq, Eq, Structural)]
pub enum InputEvent {
    /// Spawn a vehicle on this approach.
    SpawnCardinal(Cardinal),
    /// Continuous random spawning starts (`true`) or stops (`false`).
    RandomStream(bool),
    /// End the session.
    Exit,
}

/// The approach an arrow key spawns on: each arrow spawns from the opposite edge, so Up
/// sends a northbound vehicle from the south approach.
pub open spec fn arrow_approach(key: Key) -> Option<Cardinal> {
    match key {
        Key::Up => Some(Cardinal::South),
        Key::Down => Some(Cardinal::North),
        Key::Right => Some(Cardinal::West),
        Key::Left => Some(Cardinal::East),
        _ => None,
    }
}

/// Map arrow keys to the approach they spawn on.
pub fn approach_for_arrow(key: Key) -> (approach: Option<Cardinal>)
    ensures
        approach == arrow_approach(key),
{
    match key {
        Key::Up => Some(Cardinal::South),
        Key::Down => Some(Cardinal::North),
        Key::Right => Some(Cardinal::West),
        Key::Left => Some(Cardinal::East),
        _ => None,
    }
}

/// Aggregated keyboard state for the current frame.
#[derive(Debug)]
pub struct InputState {
    events: Vec<InputEvent>,
    random_stream_active: bool,
}

/// The events a key press adds: a spawn for arrows, the stream start for `R`, exit for `Esc`.
pub open spec fn key_down_events(key: Option<Key>) -> Seq<InputEvent> {
    match key {
        Some(k) => match arrow_approach(k) {
            Some(approach) => seq![InputEvent::SpawnCardinal(approach)],
            None => match k {
                Key::R => seq![InputEvent::RandomStream(true)],
                Key::Escape => seq![InputEvent::Exit],
                _ => Seq::empty(),
            },
        },
        None => Seq::empty(),
    }
}

impl InputState {
    /// Events received and not yet drained, oldest first.
    pub closed spec fn pending(&self) -> Seq<InputEvent> {
        self.events@
    }

    /// Whether `R` is held.
    pub closed spec fn streaming(&self) -> bool {
        self.random_stream_active
    }

    /// No pending events, random stream off.
    pub fn new() -> (input: Self)
        ensures
            input.pending() == Seq::<InputEvent>::empty(),
            !input.streaming(),
    {
        InputState { events: Vec::new(), random_stream_active: false }
    }

    /// Handle a key press.
    pub fn on_key_down(&mut self, keycode: Option<Key>)
        ensures
            final(self).pending() == old(self).pending() + key_down_events(keycode),
            final(self).streaming() == (keycode == Some(Key::R) || old(self).streaming()),
    {
        let key = match keycode {
            Some(key) => key,
            None => {
                assert(key_down_events(keycode) =~= Seq::<InputEvent>::empty());
                assert(old(self).pending() + key_down_events(keycode) =~= old(self).pending());
                return;
            },
        };
        if let Some(approach) = approach_for_arrow(key) {
            self.events.push(InputEvent::SpawnCardinal(approach));
            return;
        }
        match key {
            Key::R => {
                self.random_stream_active = true;
                self.events.push(InputEvent::RandomStream(true));
            },
            Key::Escape => self.events.push(InputEvent::Exit),
            _ => {
                assert(key_down_events(keycode) =~= Seq::<InputEvent>::empty());
                assert(old(self).pending() + key_down_events(keycode) =~= old(self).pending());
            },
        }
    }

    /// Handle a key release: releasing `R` stops the random stream.
    pub fn on_key_up(&mut self, keycode: Option<Key>)
        ensures
            keycode == Some(Key::R) ==> final(self).pending() == old(self).pending().push(
                InputEvent::RandomStream(false),
            ) && !final(self).streaming(),
            keycode != Some(Key::R) ==> final(self).pending() == old(self).pending()
                && final(self).streaming() == old(self).streaming(),
    {
        if keycode == Some(Key::R) {
            self.random_stream_active = false;
            self.events.push(InputEvent::RandomStream(false));
        }
    }

    /// Whether `R` is currently held (continuous random spawn while true).
    pub fn random_stream_active(&self) -> (active: bool)
        ensures
            active == self.streaming(),
    {
        self.random_stream_active
    }

    /// Take all pending events, oldest first.
    pub fn drain_events(&mut self) -> (events: Vec<InputEvent>)
        ensures
            events@ == old(self).pending(),
            final(self).pending() == Seq::<InputEvent>::empty(),
            final(self).streaming() == old(self).streaming(),
    {
        let mut events: Vec<InputEvent> = Vec::new();
        std::mem::swap(&mut events, &mut self.events);
        events
    }
}

impl Default for InputState {
    fn default() -> (input: Self)
        ensures
            input.pending() == Seq::<InputEvent>::empty(),
            !input.streaming(),
    {
        Self::new()
    }
}

} // verus!
