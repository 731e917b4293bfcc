//! Shape Up bet tooling: bet name slugs, bet scaffolds, task-spec discovery
//! and the lint rules that judge a shaped bet.

pub mod text;
pub mod slug;
pub mod shapeup;
pub mod paths;
pub mod lint;
pub mod commands;
