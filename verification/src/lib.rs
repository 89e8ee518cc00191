//! Verified core of the volumetric-video toolkit: DASH manifest handling,
//! the playback buffer, rate-adaptation bookkeeping and point-cloud helpers.

pub mod text;
pub mod dash;
pub mod utils;
pub mod abr;
pub mod color;
pub mod formats;
pub mod materials;
pub mod io;
pub mod player;
pub mod playback;
pub mod convert;
