//! Company as Code: the validator's core for a company description written as markdown files
//! with YAML frontmatter envelopes — resource discovery and envelope checks (L0), referential
//! integrity (L1), per-type required fields (L2) — together with the reference graph, its
//! orphans and backlinks, and the plan that compares a baseline description with the current
//! one.
pub mod text;
pub mod ids;
pub mod frontmatter;
pub mod yaml;
pub mod model;
pub mod validate;
pub mod load;
pub mod discover;
pub mod graph;
pub mod graph_text;
pub mod sorted;
pub mod plan;
pub mod report;
pub mod rpc;
pub mod laws;
pub mod validate_laws;
pub mod load_laws;
pub mod plan_laws;
pub mod format_laws;

pub use frontmatter::{scan_prose_refs, split_frontmatter};
pub use graph::{backlinks, graph, orphans};
pub use graph_text::{to_dot, to_mermaid};
pub use ids::{valid_addr, valid_id};
pub use load::{load_workspace, Document, ManifestSource};
pub use model::{finding, Edge, Finding, Graph, Node, Resource, Workspace, API_PREFIX, API_V0};
pub use validate::validate;
pub use yaml::{YamlEntry, YamlMapping, YamlValue};
