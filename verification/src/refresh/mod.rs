//! The refresh pipeline: export every repository of the roster, sync the hub
//! once, and build the map from issue ids to repositories. The failure of one
//! repository is collected and does not stop the others.
pub mod error;
pub mod evidence;
pub mod export;
pub mod generation;
pub mod pipeline;
pub mod prefix_map;
pub mod source;

pub use self::error::{ExportOperation, RefreshError, RepoError};
pub use self::generation::{AttributionGeneration, HubGenerationToken};
pub use self::pipeline::{
    attribution_map, run, AttributionCandidate, RefreshMetrics, RefreshOutcome, RefreshStep,
};
pub use self::prefix_map::{Collision, PrefixMap};
pub use self::source::VerifiedRepoPrefix;
