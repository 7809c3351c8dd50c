//! The verified core of Riffle, a RAW culling app: the keymap, the sidecar
//! format rules, the payload layouts and the other decisions the app makes
//! between its I/O.

pub mod text;
pub mod keymap;
pub mod accel;
pub mod sidecar;
pub mod payload;
pub mod exif;
pub mod settings;
pub mod trash;
pub mod watch;
pub mod update;
pub mod mcp;
pub mod sequence;
pub mod index;
pub mod cli;
pub mod order;
pub mod folders;
pub mod scans;
pub mod listing;
pub mod judging;
pub mod reload;
pub mod writes;
