//! DASH streaming: manifest model and lookups, segment naming and the playback buffer.

use vstd::prelude::*;

pub mod duration;
pub mod parser;
pub mod fetcher;
pub mod buffer;

verus! {

/// Predicts where the camera will be (a position of type `C`) from where it
/// was; implemented by the player's predictors.
pub trait ViewportPrediction<C>: Send {
    /// Records a camera position (`None` when the renderer gave none).
    fn add(&mut self, pos: Option<C>);

    /// The predicted camera position, if there is one.
    fn predict(&self) -> Option<C>;
}

} // verus!
