//! The decisions of the stream multiplexer.

pub mod actor;
pub mod message;
pub mod table;
pub mod text;

pub use actor::{multiplex, Action, Event};
pub use message::{Message, RelKind};
pub use table::ConnTable;
