//! The state of the terminal interface as a pure value: [`App`], the messages
//! that drive it, and the effects it asks for. Nothing in here draws, waits,
//! reads a clock or calls `bd`.
pub mod context;
pub mod filter;
pub mod keys;
pub mod list;
pub mod messages;
pub mod model;
pub mod reduce;
pub mod state;
pub mod view;

pub use self::filter::{FilterSet, PriorityFilter, RepoFilter};
pub use self::messages::{DetailState, Effect, InputContext, Msg, ViewMode};
pub use self::state::{App, SearchPhase};
