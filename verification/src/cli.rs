//! What is handed to the programs around the library, and what is made of
//! what they hand back: the menu that asks the questions, and the display
//! tool.

pub mod cmd;
pub mod dmenu;
pub mod xrandr;
