//! Terminal rendering engine: a sub-cell pixel canvas, three encoders that turn
//! it into escape-coded text, a frame-to-frame delta renderer, the pure
//! decisions of the paced output loop, the recording container, and the
//! integer simulations behind some of the animations.
pub mod animations;
pub mod ascii;
pub mod braille;
pub mod canvas;
pub mod config;
pub mod delta;
pub mod delta_laws;
pub mod halfblock;
pub mod langton;
pub mod life;
pub mod pacing;
pub mod record;
pub mod record_laws;
pub mod snake;
pub mod text;
