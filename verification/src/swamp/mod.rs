//! What the `swamp` CLI reports, and the decisions made on its replies.
pub mod data;
pub mod model;
pub mod process;
pub mod workflow;

pub use data::{DataArtifact, DataContent, DataVersion, OwnerDefinition, Tags};
pub use model::{MethodSpec, ModelDetails, ModelSummary, TypeDescription, TypeName};
pub use process::{RunEvent, SwampCli};
pub use workflow::{WorkflowDefinition, WorkflowNode, WorkflowSummary};
