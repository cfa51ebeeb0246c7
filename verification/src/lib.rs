//! Reading bacon location files and deciding which warning location to open
//! in the editor next.

pub mod chars;
pub mod text;
pub mod location;
pub mod line_ref;
pub mod vscode;
pub mod watch;
pub mod monitor;
