//! Voxel terrain streaming and meshing.
//!
//! A bounded window of terrain chunks follows a moving viewpoint. Chunk
//! storage lives in a fixed pool of slots that is recycled as the window
//! moves; block grids are turned into triangle meshes with hidden faces
//! culled, across chunk borders too.
use vstd::prelude::*;

pub mod render;
pub mod scene;

verus! {

/// Whether the game reacts to input or is held.
#[derive(Copy, Clone, Debug, PartialEq, Eq, Structural)]
pub enum GameState {
    PLAYING,
    PAUSED,
}

/// What the window has to do with the cursor after a change of state.
#[derive(Copy, Clone, Debug, PartialEq, Eq, Structural)]
pub struct CursorAction {
    /// Confine the cursor to the window.
    pub locked: bool,
    /// Show the cursor.
    pub visible: bool,
    /// Move the cursor to the middle of the window first.
    pub centered: bool,
}

impl GameState {
    /// The state after the pause key was pressed.
    pub open spec fn spec_toggled(self) -> GameState {
        match self {
            GameState::PLAYING => GameState::PAUSED,
            GameState::PAUSED => GameState::PLAYING,
        }
    }

    /// The cursor handling that goes with entering `self`.
    pub open spec fn spec_cursor(self) -> CursorAction {
        match self {
            GameState::PLAYING => CursorAction { locked: true, visible: false, centered: false },
            GameState::PAUSED => CursorAction { locked: false, visible: true, centered: true },
        }
    }

    /// Pause key: a running game is paused and the cursor is released in
    /// the middle of the window; a paused game resumes with the cursor
    /// locked and hidden.
    pub fn on_escape(self) -> (next: (GameState, CursorAction))
        ensures
            next.0 == self.spec_toggled(),
            next.1 == self.spec_toggled().spec_cursor(),
    {
        match self {
            GameState::PLAYING => (
                GameState::PAUSED,
                CursorAction { locked: false, visible: true, centered: true },
            ),
            GameState::PAUSED => (
                GameState::PLAYING,
                CursorAction { locked: true, visible: false, centered: false },
            ),
        }
    }

    /// Camera input is taken only while playing.
    pub fn accepts_input(&self) -> (accepted: bool)
        ensures
            accepted == (*self == GameState::PLAYING),
    {
        match self {
            GameState::PLAYING => true,
            GameState::PAUSED => false,
        }
    }
}

} // verus!
