//! Orchestration logic for container-based integration test runs.
//!
//! The library works over layered service-definition documents: it extracts
//! each document's service declarations, restricts a run to a requested
//! subset of services, synthesizes a configuration overlay that disables
//! every non-selected service, and plans the wait/log/status phase of a
//! run.  Everything that spawns processes, touches the file system or runs
//! the document parser lives outside the library; the library takes
//! already-parsed trees and computes on plain values.

pub mod strutil;
pub mod yaml;
pub mod services;
pub mod select;
pub mod orchestrate;

use vstd::prelude::*;

verus! {

/// A terminal error of the run: none of these is retried.
#[derive(Debug)]
pub enum Error {
    /// A document whose shape is wrong; the message names the offending file.
    Custom(String),
    /// The document text could not be parsed at all; the message names the
    /// offending file.
    Yaml(String),
    /// The text yielded by the per-container wait primitive was not an integer.
    Parse(String),
}

impl Error {
    /// The single-line message shown to the user.
    pub open spec fn spec_message(&self) -> Seq<char> {
        match self {
            Error::Custom(m) => m@,
            Error::Yaml(m) => m@,
            Error::Parse(m) => m@,
        }
    }

    pub fn message(&self) -> (m: String)
        ensures
            m@ == self.spec_message(),
    {
        match self {
            Error::Custom(m) => m.clone(),
            Error::Yaml(m) => m.clone(),
            Error::Parse(m) => m.clone(),
        }
    }
}

} // verus!
