//! The query commands: what a caller may ask of a built project graph.
use vstd::prelude::*;

verus! {

/// A query against the project graph: inspect a hash, compare two, or
/// filter the projects and their tasks.
pub enum QueryCommands {
    /// Inspect the contents of a generated hash.
    Hash { hash: String, json: bool },
    /// Compare two generated hashes.
    HashDiff { left: String, right: String, json: bool },
    /// Filter the projects of the graph.
    Projects {
        query: Option<String>,
        alias: Option<String>,
        affected: bool,
        id: Option<String>,
        json: bool,
        language: Option<String>,
        source: Option<String>,
        tags: Option<String>,
        tasks: Option<String>,
        type_of: Option<String>,
    },
    /// List the projects and their tasks.
    Tasks {
        query: Option<String>,
        alias: Option<String>,
        affected: bool,
        id: Option<String>,
        json: bool,
        language: Option<String>,
        source: Option<String>,
        tasks: Option<String>,
        type_of: Option<String>,
    },
}

} // verus!
