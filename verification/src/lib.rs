//! Finds known file-format signatures at arbitrary offsets of a byte buffer
//! and plans the recursive extraction of what they announce.
//!
//! * [`pattern`] searches a buffer for a byte pattern with wildcard
//!   positions, exhaustively or by skipping ahead; both give the same hits.
//! * [`signature`] holds the rules, [`filter`] the lists that restrict them.
//! * [`scanner`] collects the hits of every rule and lets validators confirm
//!   them; [`resolver`] puts what is confirmed into the canonical order.
//! * [`orchestrator`] is the work queue of extraction as a state machine,
//!   with depth and attempt limits; [`aggregator`] files the results under
//!   distinct keys.
//! * [`session`] ties a registry to a configuration and drives a run against
//!   a [`session::Host`]; [`report`] renders results as rows of text.
//! * [`python`] holds the two entry points of the Python module, from what
//!   was read from disk to the rows or the exception that Python receives.
//!
//! The library does no I/O. Validators, extractors and the file system are
//! handed in by the caller.

pub mod aggregator;
pub mod confidence;
pub mod filter;
pub mod orchestrator;
pub mod pattern;
pub mod python;
pub mod report;
pub mod resolver;
pub mod scanner;
pub mod session;
pub mod signature;
pub mod text;

pub use aggregator::{AggregateError, ExtractionResult, ExtractionResults, FiledResult};
pub use confidence::Confidence;
pub use filter::Filter;
pub use orchestrator::{
    Event, ExtractionOutcome, ExtractionTask, Limits, OrchestrationError, Orchestrator,
    PendingFile, Step,
};
pub use pattern::{Pattern, PatternByte};
pub use resolver::{AnalysisResult, AnalysisResults};
pub use scanner::{Hit, NeverStop, NoValidators, ScanMatch, StopSignal, Validators, Verdict};
pub use session::{configure, ConfigError, Configuration, Host, PathKind, Session};
pub use signature::{Registry, RegistryError, SignatureRule};
