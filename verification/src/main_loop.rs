//! The decisions of the dashboard's event loop: what a key press does, and
//! whether a tick refreshes the readings.
//!
//! The program draws, waits for a key for one tick, hands the key to
//! `next_step`, and performs the action it returns.

use vstd::prelude::*;

verus! {

/// A key press, as the loop tells keys apart.
#[derive(Debug, Clone, Copy, PartialEq, Eq, Structural)]
pub enum KeyInput {
    /// `q` or `Q`.
    Quit,
    /// `p` or `P`.
    TogglePause,
    /// Any other key.
    Other,
}

/// What the loop does after a tick.
#[derive(Debug, Clone, Copy, PartialEq, Eq, Structural)]
pub enum LoopAction {
    /// Leave the loop and restore the terminal.
    Exit,
    /// Draw again without reading anything (the display is frozen).
    Wait,
    /// Read fresh statistics, update histories, alerts and the log.
    Refresh,
}

/// The loop's own state.
#[derive(Debug, Clone, Copy, PartialEq, Eq, Structural)]
pub struct LoopState {
    pub paused: bool,
    /// Number of refreshes so far.
    pub tick_count: u64,
}

impl LoopState {
    /// Running, before the first refresh.
    pub fn new() -> (s: Self)
        ensures
            !s.paused,
            s.tick_count == 0,
    {
        LoopState { paused: false, tick_count: 0 }
    }
}

/// The key that the character `c` stands for.
pub open spec fn key_of(c: char) -> KeyInput {
    if c == 'q' || c == 'Q' {
        KeyInput::Quit
    } else if c == 'p' || c == 'P' {
        KeyInput::TogglePause
    } else {
        KeyInput::Other
    }
}

/// Only `q`/`Q` quit and only `p`/`P` toggle the pause; every other
/// character is ignored.
pub proof fn lemma_keys(c: char)
    ensures
        (key_of(c) == KeyInput::Quit) <==> (c == 'q' || c == 'Q'),
        (key_of(c) == KeyInput::TogglePause) <==> (c == 'p' || c == 'P'),
        (key_of(c) == KeyInput::Other) <==> !(c == 'q' || c == 'Q' || c == 'p' || c == 'P'),
{
}

/// Tells the loop's keys apart.
pub fn key_input(c: char) -> (k: KeyInput)
    ensures
        k == key_of(c),
        (k == KeyInput::Quit) <==> (c == 'q' || c == 'Q'),
        (k == KeyInput::TogglePause) <==> (c == 'p' || c == 'P'),
        (k == KeyInput::Other) <==> !(c == 'q' || c == 'Q' || c == 'p' || c == 'P'),
{
    if c == 'q' || c == 'Q' {
        KeyInput::Quit
    } else if c == 'p' || c == 'P' {
        KeyInput::TogglePause
    } else {
        KeyInput::Other
    }
}

/// The tick after state `s` with key `key` refreshes (so counts one more tick).
pub open spec fn will_refresh(s: LoopState, key: Option<KeyInput>) -> bool {
    key != Some(KeyInput::Quit) && s.paused == (key == Some(KeyInput::TogglePause))
}

/// The tick after state `s` with key `key` leaves the count within `u64`.
pub fn step_fits(s: LoopState, key: Option<KeyInput>) -> (fits: bool)
    ensures
        fits == (will_refresh(s, key) ==> s.tick_count < u64::MAX),
{
    let quit = match key {
        Some(KeyInput::Quit) => true,
        _ => false,
    };
    let toggle = match key {
        Some(KeyInput::TogglePause) => true,
        _ => false,
    };
    quit || s.paused != toggle || s.tick_count < u64::MAX
}

/// One tick of the loop: `q` quits; `p` toggles the pause; while paused
/// nothing is read and the count stays; otherwise the readings are refreshed
/// and the count goes up by one.
pub fn next_step(s: LoopState, key: Option<KeyInput>) -> (r: (LoopState, LoopAction))
    requires
        will_refresh(s, key) ==> s.tick_count < u64::MAX,
    ensures
        key == Some(KeyInput::Quit) ==> r == (s, LoopAction::Exit),
        key != Some(KeyInput::Quit) ==> r.0.paused == (s.paused != (key == Some(KeyInput::TogglePause))),
        key != Some(KeyInput::Quit) && r.0.paused ==> r.1 == LoopAction::Wait && r.0.tick_count == s.tick_count,
        key != Some(KeyInput::Quit) && !r.0.paused ==> r.1 == LoopAction::Refresh && r.0.tick_count == s.tick_count + 1,
{
    match key {
        Some(KeyInput::Quit) => (s, LoopAction::Exit),
        _ => {
            let toggle = match key {
                Some(KeyInput::TogglePause) => true,
                _ => false,
            };
            let paused = if toggle { !s.paused } else { s.paused };
            if paused {
                (LoopState { paused, tick_count: s.tick_count }, LoopAction::Wait)
            } else {
                (LoopState { paused, tick_count: s.tick_count + 1 }, LoopAction::Refresh)
            }
        },
    }
}

/// The reading to show after a refresh: the new one when it could be read,
/// else the last good one.
pub fn keep_latest<T, E>(current: T, reading: Result<T, E>) -> (shown: T)
    ensures
        shown == match reading {
            Ok(v) => v,
            Err(_) => current,
        },
{
    match reading {
        Ok(v) => v,
        Err(_) => current,
    }
}

} // verus!
