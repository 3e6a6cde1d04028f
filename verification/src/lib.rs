//! A terminal idle screensaver: Conway's Game of Life on a toroidal board,
//! packed two rows per character cell, plus the idle-watcher logic that decides
//! when the screensaver runs.
pub mod life;
pub mod render;
pub mod input;
pub mod app;
pub mod number;
pub mod watch;
pub mod notify;
