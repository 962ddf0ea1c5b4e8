//! Scan options and summary of physical embedded (content-keyed) records.
use vstd::prelude::*;
use std::collections::BTreeMap;

verus! {

/// Resource budgets of an embedded-record scan.
#[derive(Clone, Copy, Debug)]
pub struct ScanOptions {
    pub max_stream_bytes: u64,
    pub max_group_bytes: usize,
    pub max_graph_values: usize,
    pub max_graph_objects: usize,
}

impl Default for ScanOptions {
    fn default() -> (r: Self)
        ensures
            r.max_stream_bytes == 512 * 1024 * 1024,
            r.max_group_bytes == 256 * 1024 * 1024,
            r.max_graph_values == 100_000,
            r.max_graph_objects == 100_000,
    {
        ScanOptions {
            max_stream_bytes: 512 * 1024 * 1024,
            max_group_bytes: 256 * 1024 * 1024,
            max_graph_values: 100_000,
            max_graph_objects: 100_000,
        }
    }
}

/// Where one embedded record was found.
#[derive(Clone, Debug)]
pub struct Source {
    pub stream: String,
    pub group: crate::framing::GroupSource,
    pub group_record_offset: usize,
    pub body_sha256: String,
}

/// A current content-table row without exactly one physical candidate.
#[derive(Clone, Debug)]
pub struct CurrentRowIssue {
    pub content_key_raw_hex: String,
    pub local_element_id: u64,
    pub physical_candidates: usize,
}

/// A content-local locator seen more than once.
#[derive(Clone, Debug)]
pub struct Duplicate {
    pub content_key_raw_hex: String,
    pub local_element_id: u64,
    pub physical_occurrences: usize,
}

/// Outcome of an embedded-record scan.
#[derive(Clone, Debug, Default)]
pub struct Summary {
    pub status: String,
    pub reason: Option<String>,
    pub budgets: ScanOptions,
    pub selected_current_records: usize,
    pub unresolved_current_rows: Vec<CurrentRowIssue>,
    pub terminal_records: usize,
    pub current_state_established: bool,
    pub main_project_unique_ids_assigned: bool,
    pub selected_groups: usize,
    pub emitted_records: usize,
    pub unsupported_graph_records: usize,
    pub refused_record_ids: Vec<u64>,
    pub refused_record_classes: BTreeMap<String, usize>,
    pub namespace_records: BTreeMap<String, usize>,
    pub duplicate_local_locators: Vec<Duplicate>,
}

} // verus!
