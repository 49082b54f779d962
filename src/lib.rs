//! Bulk file renaming: scanning with exclusion rules, search-and-replace on
//! file names, collision detection with optional auto-numbering, and the
//! bookkeeping of a parallel rename run.

pub mod conflict;
pub mod controller;
pub mod exclusion;
pub mod matchers;
pub mod path;
pub mod preview;
pub mod rename;
pub mod scan;
pub mod state;
pub mod text;
pub mod transform;
pub mod widgets;
