//! Visual settings of the game.
use vstd::prelude::*;

verus! {

/// How the game window is shown.
#[derive(Debug, Clone, Copy, PartialEq, Eq, Structural)]
pub enum ResolutionState {
    BorderlessFullscreen,
    Windowed(u32, u32),
    Fullscreen(u32, u32),
}

impl Default for ResolutionState {
    /// Borderless fullscreen.
    fn default() -> (r: Self)
        ensures
            r == ResolutionState::BorderlessFullscreen,
    {
        ResolutionState::BorderlessFullscreen
    }
}

/// The settings for how the game looks.
#[derive(Debug, Clone, Copy, PartialEq, Eq, Structural)]
pub struct VisualSettings {
    pub resolution: ResolutionState,
}

impl Default for VisualSettings {
    /// Borderless fullscreen.
    fn default() -> (r: Self)
        ensures
            r.resolution == ResolutionState::BorderlessFullscreen,
    {
        VisualSettings { resolution: ResolutionState::default() }
    }
}

} // verus!
