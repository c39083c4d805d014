//! An overwrite-mode editing engine: while the mode is active, typed
//! characters replace the character under the cursor instead of being
//! inserted, the text they replaced is tracked, and an undo motion restores
//! the replaced text keystroke by keystroke, in reverse order.

pub mod actions;
pub mod applier;
pub mod laws;
pub mod session;
pub mod text;
pub mod tracker;

pub use session::{Editor, OverwriteSession, replace_motion};
pub use text::TextBuffer;
pub use tracker::OverwriteTracker;
