//! The two entry points that the Python module offers, `scan_file` and
//! `extract`, with everything but the file access and the registration of
//! the module: what they check, in which order, what they return, and how a
//! failure becomes a Python exception.

use crate::filter::{optional_names, Filter, FilterView};
use crate::orchestrator::{EventView, Limits, OrchestrationError};
use crate::report::analysis_rows;
use crate::resolver::ResultView;
use crate::scanner::{scan, Validators};
use crate::session::{
    chosen_output_root, config_fault, explains_rows, renders_scan, rows_render_matches,
    ConfigError, Host, PathKind, Session, DEFAULT_MAX_ATTEMPTS, DEFAULT_MAX_DEPTH,
};
use crate::signature::{optional_text, Registry};
use pyo3::exceptions::PyRuntimeError;
use pyo3::PyErr;
use vstd::prelude::*;
use vstd::string::*;

verus! {

/// `pyo3::PyErr`, a Python exception. It is carried through as it is.
#[verifier::external_type_specification]
#[verifier::external_body]
pub struct ExPyErr(pyo3::PyErr);

/// `PyRuntimeError::new_err`: makes the Python `RuntimeError` that carries
/// the message. The exception is built lazily, without the interpreter.
/// Nothing is claimed of it.
#[verifier::external_body]
fn runtime_error(message: String) -> (e: PyErr) {
    PyRuntimeError::new_err(message)
}

/// Why a call fails.
#[derive(Clone, Debug, PartialEq, Eq)]
pub enum Failure {
    /// Nothing exists at the input path.
    MissingInput,
    /// The settings were refused.
    Config(ConfigError),
    /// The input file could not be read; the text is the reader's.
    Unreadable(String),
    /// The result set became inconsistent and the run was aborted.
    Inconsistent(OrchestrationError),
}

impl Failure {
    /// The text of the failure.
    pub open spec fn message_text(self) -> Seq<char> {
        match self {
            Failure::MissingInput => "Input file does not exist"@,
            Failure::Config(e) => e.message_text(),
            Failure::Unreadable(text) => text@,
            Failure::Inconsistent(OrchestrationError::KeyCollision(key)) => "Two results claim the key "@
                + key@,
            Failure::Inconsistent(OrchestrationError::OutOfTurn) => "An event came out of turn"@,
        }
    }

    /// The text of the failure.
    pub fn message(&self) -> (s: String)
        ensures
            s@ == self.message_text(),
    {
        match self {
            Failure::MissingInput => "Input file does not exist".to_owned(),
            Failure::Config(e) => e.message(),
            Failure::Unreadable(text) => text.clone(),
            Failure::Inconsistent(OrchestrationError::KeyCollision(key)) => {
                let mut s = "Two results claim the key ".to_owned();
                s.append(key.as_str());
                s
            },
            Failure::Inconsistent(OrchestrationError::OutOfTurn) => "An event came out of turn".to_owned(),
        }
    }
}

/// Turns a failure into the Python exception that carries its text; a
/// success passes through.
pub fn raise<T>(outcome: Result<T, Failure>) -> (r: Result<T, PyErr>)
    ensures
        r is Ok <==> outcome is Ok,
        r is Ok ==> r->Ok_0 == outcome->Ok_0,
{
    match outcome {
        Ok(value) => Ok(value),
        Err(failure) => Err(runtime_error(failure.message())),
    }
}

/// The filter of a scan that reports every signature.
pub open spec fn no_filter() -> FilterView {
    FilterView { restrict_to: None, suppress: None }
}

/// Scans what was read from a file and renders the matches as rows.
///
/// `read` is what reading the file gave: its bytes, or the text of the
/// reader's error, which is the failure then. Every signature of the
/// registry is searched, by skipping.
pub fn scan_file_report<V: Validators>(
    registry: &Registry,
    read: Result<Vec<u8>, String>,
    validators: &V,
) -> (r: Result<Vec<Vec<(String, String)>>, Failure>)
    ensures
        read is Err ==> (r matches Err(Failure::Unreadable(t)) && t@ == read->Err_0@),
        read is Ok ==> r is Ok,
        r is Ok ==> renders_scan(r->Ok_0@, registry@, no_filter(), read->Ok_0@),
{
    match read {
        Err(text) => Err(Failure::Unreadable(text)),
        Ok(data) => {
            let filter = Filter::everything();
            assert(filter@ == no_filter());
            let found = scan(registry, &filter, data.as_slice(), false, validators);
            let rows = analysis_rows(&found);
            assert(rows_render_matches(rows@, found@));
            Ok(rows)
        },
    }
}

/// Which failure, if any, precedes the run: a missing input, then refused
/// settings, then an unreadable input.
pub open spec fn early_failure(
    file_path: Seq<char>,
    target_kind: PathKind,
    output_path: Option<Seq<char>>,
    output_kind: PathKind,
    read: Result<Vec<u8>, String>,
) -> Option<Failure> {
    if target_kind is Missing {
        Some(Failure::MissingInput)
    } else if config_fault(Some(file_path), target_kind, output_path, output_kind) is Some {
        Some(
            Failure::Config(
                config_fault(Some(file_path), target_kind, output_path, output_kind).unwrap(),
            ),
        )
    } else if read is Err {
        Some(Failure::Unreadable(read->Err_0))
    } else {
        None
    }
}

/// What a run returns as rows, or the failure that aborted it.
pub open spec fn run_outcome(r: Result<Vec<Vec<(String, String)>>, Failure>) -> Result<
    Vec<Vec<(String, String)>>,
    OrchestrationError,
> {
    match r {
        Ok(rows) => Ok(rows),
        Err(Failure::Inconsistent(e)) => Err(e),
        Err(_) => Err(OrchestrationError::OutOfTurn),
    }
}

/// Scans what was read from the file at `file_path`, extracts everything
/// that is found, level by level, and renders the results as rows.
///
/// `target_kind` and `output_kind` say what lies at the two paths, `read`
/// what reading the file gave. A missing input fails first, then settings
/// that are refused, then an input that could not be read. After that only
/// an inconsistent result set fails. Without `full_search` the search skips
/// ahead.
pub fn extract_report<V: Validators, H: Host>(
    registry: Registry,
    file_path: String,
    target_kind: PathKind,
    output_path: Option<String>,
    output_kind: PathKind,
    restrict_to: Option<Vec<String>>,
    suppress: Option<Vec<String>>,
    full_search: Option<bool>,
    read: Result<Vec<u8>, String>,
    validators: &V,
    host: &mut H,
) -> (r: Result<Vec<Vec<(String, String)>>, Failure>)
    ensures
        (match early_failure(file_path@, target_kind, optional_text(output_path), output_kind, read) {
            Some(Failure::Unreadable(text)) => r matches Err(Failure::Unreadable(t)) && t@
                == text@,
            Some(failure) => r == Err::<Vec<Vec<(String, String)>>, Failure>(failure),
            None => (r is Ok || r matches Err(Failure::Inconsistent(_))) && exists|
                found: Seq<ResultView>,
                events: Seq<EventView>,
            |
                #[trigger] explains_rows(
                    found,
                    events,
                    Limits { max_depth: DEFAULT_MAX_DEPTH, max_attempts: DEFAULT_MAX_ATTEMPTS },
                    registry@,
                    FilterView {
                        restrict_to: optional_names(restrict_to),
                        suppress: optional_names(suppress),
                    },
                    read->Ok_0@,
                    file_path@,
                    chosen_output_root(optional_text(output_path)),
                    run_outcome(r),
                ),
        }),
{
    match target_kind {
        PathKind::Missing => {
            return Err(Failure::MissingInput);
        },
        _ => {},
    }
    let source = file_path.clone();
    let full = match full_search {
        Some(flag) => flag,
        None => false,
    };
    let session = match Session::configure(
        registry,
        Some(file_path),
        target_kind,
        output_path,
        output_kind,
        restrict_to,
        suppress,
        full,
    ) {
        Ok(session) => session,
        Err(e) => {
            return Err(Failure::Config(e));
        },
    };
    let data = match read {
        Ok(data) => data,
        Err(text) => {
            return Err(Failure::Unreadable(text));
        },
    };
    match session.extract_rows(data.as_slice(), source.as_str(), validators, host) {
        Ok(rows) => Ok(rows),
        Err(e) => Err(Failure::Inconsistent(e)),
    }
}

/// `scan_file` as Python sees it: the rows of [`scan_file_report`], or the
/// exception for its failure.
pub fn scan_file<V: Validators>(
    registry: &Registry,
    read: Result<Vec<u8>, String>,
    validators: &V,
) -> (r: Result<Vec<Vec<(String, String)>>, PyErr>)
    ensures
        r is Ok <==> read is Ok,
        r is Ok ==> renders_scan(r->Ok_0@, registry@, no_filter(), read->Ok_0@),
{
    raise(scan_file_report(registry, read, validators))
}

/// `extract` as Python sees it: the rows of [`extract_report`], or the
/// exception for its failure. It fails where a failure precedes the run, and
/// otherwise only where the run was aborted.
pub fn extract<V: Validators, H: Host>(
    registry: Registry,
    file_path: String,
    target_kind: PathKind,
    output_path: Option<String>,
    output_kind: PathKind,
    restrict_to: Option<Vec<String>>,
    suppress: Option<Vec<String>>,
    full_search: Option<bool>,
    read: Result<Vec<u8>, String>,
    validators: &V,
    host: &mut H,
) -> (r: Result<Vec<Vec<(String, String)>>, PyErr>)
    ensures
        early_failure(file_path@, target_kind, optional_text(output_path), output_kind, read)
            is Some ==> r is Err,
        r is Ok ==> exists|found: Seq<ResultView>, events: Seq<EventView>|
            #[trigger] explains_rows(
                found,
                events,
                Limits { max_depth: DEFAULT_MAX_DEPTH, max_attempts: DEFAULT_MAX_ATTEMPTS },
                registry@,
                FilterView {
                    restrict_to: optional_names(restrict_to),
                    suppress: optional_names(suppress),
                },
                read->Ok_0@,
                file_path@,
                chosen_output_root(optional_text(output_path)),
                Ok(r->Ok_0),
            ),
        r is Err && early_failure(
            file_path@,
            target_kind,
            optional_text(output_path),
            output_kind,
            read,
        ) is None ==> exists|found: Seq<ResultView>, events: Seq<EventView>, e: OrchestrationError|
            #[trigger] explains_rows(
                found,
                events,
                Limits { max_depth: DEFAULT_MAX_DEPTH, max_attempts: DEFAULT_MAX_ATTEMPTS },
                registry@,
                FilterView {
                    restrict_to: optional_names(restrict_to),
                    suppress: optional_names(suppress),
                },
                read->Ok_0@,
                file_path@,
                chosen_output_root(optional_text(output_path)),
                Err(e),
            ),
{
    raise(
        extract_report(
            registry,
            file_path,
            target_kind,
            output_path,
            output_kind,
            restrict_to,
            suppress,
            full_search,
            read,
            validators,
            host,
        ),
    )
}

} // verus!
