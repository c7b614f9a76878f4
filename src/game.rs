//! The game's screens and the view mode, as explicit state machines.

use vstd::prelude::*;

verus! {

/// Number of levels a player can choose from the menu.
pub const LEVEL_COUNT: u8 = 3;

/// The screen the game shows.
#[derive(Clone, Copy, Debug, PartialEq, Eq, Structural)]
pub enum GameState {
    Menu,
    Playing,
    Victory,
}

/// What happened during a frame that may change the screen.
#[derive(Clone, Copy, Debug, PartialEq, Eq, Structural)]
pub enum GameEvent {
    /// A level, numbered from 1, was picked.
    LevelChosen(u8),
    /// The player stands on the goal.
    GoalReached,
    /// The confirm key was pressed.
    Confirm,
}

/// The screen after an event: a valid level choice starts play from the
/// menu, reaching the goal wins, and confirming on the victory screen goes
/// back to the menu; anything else changes nothing.
pub open spec fn transition(s: GameState, e: GameEvent) -> GameState {
    match (s, e) {
        (GameState::Menu, GameEvent::LevelChosen(n)) => if 1 <= n <= LEVEL_COUNT {
            GameState::Playing
        } else {
            GameState::Menu
        },
        (GameState::Playing, GameEvent::GoalReached) => GameState::Victory,
        (GameState::Victory, GameEvent::Confirm) => GameState::Menu,
        _ => s,
    }
}

impl GameState {
    /// The screen after `event`; see `transition`.
    pub fn next(self, event: GameEvent) -> (r: GameState)
        ensures
            r == transition(self, event),
    {
        match (self, event) {
            (GameState::Menu, GameEvent::LevelChosen(n)) => if 1 <= n && n <= LEVEL_COUNT {
                GameState::Playing
            } else {
                GameState::Menu
            },
            (GameState::Playing, GameEvent::GoalReached) => GameState::Victory,
            (GameState::Victory, GameEvent::Confirm) => GameState::Menu,
            _ => self,
        }
    }
}

/// Which view of the maze is drawn while playing.
#[derive(Clone, Copy, Debug, PartialEq, Eq, Structural)]
pub enum ViewMode {
    TopDown,
    FirstPerson,
}

impl ViewMode {
    /// The other view.
    pub fn toggled(self) -> (r: ViewMode)
        ensures
            r != self,
    {
        match self {
            ViewMode::TopDown => ViewMode::FirstPerson,
            ViewMode::FirstPerson => ViewMode::TopDown,
        }
    }
}

} // verus!
