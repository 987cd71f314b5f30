//! The `bd` interface: the payloads it answers with, the errors a call can end
//! in, the command lines, and the client through which the rest of the library
//! talks to it.
pub mod cli;
pub mod client;
pub mod error;
pub mod types;

pub use self::cli::BdCli;
pub use self::client::{BdClient, RepoSyncReport};
pub use self::error::{BdError, BdErrorKind};
pub use self::types::{BdShapeError, BdVersion, Dependency, Issue, IssueDetail};
