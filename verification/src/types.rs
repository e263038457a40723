//! The values exchanged with a Vtiger instance: response envelopes, API
//! errors, export formats, and the records that queries return.

use indexmap::IndexMap;
use vstd::prelude::*;

verus! {

/// Supported export formats for Vtiger data.
///
/// - JSON creates a single file with all records in an array
/// - JSON Lines creates one JSON object per line (streaming-friendly)
/// - CSV creates a traditional spreadsheet format with headers
#[derive(Debug, PartialEq, Eq, Structural, Clone, Copy)]
pub enum ExportFormat {
    /// JSON format (.json): all records as a single JSON array
    Json,
    /// JSON Lines format (.jsonl): each record as a JSON object on its own line
    JsonLines,
    /// CSV format (.csv): comma-separated values with a header row
    CSV,
}

/// Error information returned by the Vtiger API.
#[derive(Debug)]
pub struct ApiError {
    /// Error code for programmatic error handling
    pub code: String,
    /// Human-readable error message
    pub message: String,
}

/// One value of a record field, as far as this library reads it.
///
/// Scalars are kept as they arrive; a number keeps the text by which JSON
/// renders it, and an array or an object keeps its compact JSON text, which
/// is all that the export reads of it.
#[derive(Debug)]
pub enum FieldValue {
    /// JSON `null`
    Null,
    /// JSON `true` or `false`
    Bool(bool),
    /// A JSON number, by its JSON rendering
    Number(String),
    /// A JSON string
    String(String),
    /// A JSON array, by its compact JSON text
    Array(String),
    /// A JSON object, by its compact JSON text
    Object(String),
}

/// The `indexmap` map that records are held in.
#[verifier::external_type_specification]
#[verifier::external_body]
#[verifier::reject_recursive_types(K)]
#[verifier::reject_recursive_types(V)]
#[verifier::reject_recursive_types(S)]
pub struct ExIndexMap<K, V, S>(IndexMap<K, V, S>);

/// A record: field names mapped to their values, in the order they arrived.
pub type Record = IndexMap<String, FieldValue>;

/// The entries of a record, in order, each key given by its characters.
///
/// `IndexMap` keeps one entry per key, in insertion order.
pub uninterp spec fn record_entries(m: IndexMap<String, FieldValue>) -> Seq<(Seq<char>, FieldValue)>;

/// The index of the first of `entries` whose key is `key`, if any.
pub open spec fn key_index<V>(entries: Seq<(Seq<char>, V)>, key: Seq<char>) -> Option<int>
    decreases entries.len(),
{
    if entries.len() == 0 {
        None
    } else {
        match key_index(entries.drop_last(), key) {
            Some(i) => Some(i),
            None => if entries.last().0 == key {
                Some(entries.len() - 1)
            } else {
                None
            },
        }
    }
}

/// The value that `key` maps to among `entries`, if any.
pub open spec fn lookup<V>(entries: Seq<(Seq<char>, V)>, key: Seq<char>) -> Option<V> {
    match key_index(entries, key) {
        Some(i) => Some(entries[i].1),
        None => None,
    }
}

/// `IndexMap::len`: the number of entries of the record.
#[verifier::external_body]
pub(crate) fn record_len(m: &Record) -> (n: usize)
    ensures
        n == record_entries(*m).len(),
{
    m.len()
}

/// `IndexMap::get_index`: the key and value at position `i`, or `None`
/// when `i` is not below the length.
#[verifier::external_body]
pub(crate) fn record_get_index(m: &Record, i: usize) -> (r: Option<(&String, &FieldValue)>)
    ensures
        i < record_entries(*m).len() <==> r is Some,
        r matches Some(p) ==> p.0@ == record_entries(*m)[i as int].0 && *p.1
            == record_entries(*m)[i as int].1,
{
    m.get_index(i)
}

/// `IndexMap::get`: the value stored under `key`, or `None`. `IndexMap`
/// holds each key at most once, so the entry found is the first with that key.
#[verifier::external_body]
pub(crate) fn record_get<'a>(m: &'a Record, key: &str) -> (r: Option<&'a FieldValue>)
    ensures
        match r {
            Some(v) => lookup(record_entries(*m), key@) == Some(*v),
            None => lookup(record_entries(*m), key@) is None,
        },
{
    m.get(key)
}

/// Response wrapper for the Vtiger REST API calls that return one object.
///
/// `success` tells whether the call succeeded; `result` holds the data when
/// it did, and `error` the error details when it did not.
#[derive(Debug)]
pub struct VtigerResponse {
    /// Indicates whether the API call was successful
    pub success: bool,
    /// Contains the response data when `success` is true
    pub result: Option<Record>,
    /// Contains error details when `success` is false
    pub error: Option<ApiError>,
}

/// Response format for Vtiger query operations that return many records.
#[derive(Debug)]
pub struct VtigerQueryResponse {
    /// Whether the query operation succeeded
    pub success: bool,
    /// The records returned by the query (present when successful)
    pub result: Option<Vec<Record>>,
    /// Error details (present when failed)
    pub error: Option<ApiError>,
}

} // verus!
