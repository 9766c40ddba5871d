//! Data shapes shared with the surrounding system.

use vstd::prelude::*;
use std::collections::HashMap;

verus! {

/// Workspace-wide statistics the dashboard reports.
pub struct SystemStats {
    pub nodes: i32,
    pub class_distribution: HashMap<String, i32>,
    pub recent_activity_count: i32,
    pub total_links: i32,
    pub orphan_nodes: i32,
    pub untagged_nodes: i32,
}

/// One field of a document archetype's form schema.
pub struct FieldDefinition {
    pub key: String,
    pub kind: String,
    pub label: String,
    pub options: Option<Vec<String>>,
    pub read_only: Option<bool>,
}

} // verus!
