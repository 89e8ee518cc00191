//! Point-cloud materials: colours and directories of `.ply` files.

pub mod color;
pub mod ply_dir;
