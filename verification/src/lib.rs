//! The decisions of a clipboard history keeper: what enters the history, how it is
//! logged and read back, what is shown, and which actions each event asks for.

pub mod calendar;
pub mod clipboard;
pub mod history;
pub mod laws;
pub mod log;
pub mod picture;
pub mod readback;
pub mod screen;
pub mod state;
pub mod text;
pub mod ticker;
pub mod window;
