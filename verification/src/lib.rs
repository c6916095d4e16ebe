//! Driver logic for the Waveshare 7.5" (V2) e-paper panel.

pub mod blocks;
pub mod caps;
pub mod color;
pub mod epd7in5_v2;
pub mod interface;
pub mod operation;
pub mod packets;
pub mod runs;
pub mod script;
pub mod spacing;
pub mod stops;
pub mod timing;
pub mod traits;
pub mod wire;
