//! A session: a registry and a validated configuration, with the
//! operations that callers use: scanning a buffer and extracting what a
//! scan found.

use crate::aggregator::{ExtractionResults, FiledView};
use crate::filter::{optional_names, Filter, FilterView};
use crate::orchestrator::{
    effort, explains, in_turn, lemma_run_extends, run_after, Event, EventView, ExtractionOutcome,
    FaultView, Limits, OrchestrationError, Orchestrator, Step,
};
use crate::report::{analysis_row, analysis_rows, extraction_row, extraction_rows, row_text};
use crate::resolver::{AnalysisResults, ResultView};
use crate::scanner::{
    is_partial_scan_result, is_scan_result, scan, scan_until, StopSignal, Validators, Verdict,
};
use crate::signature::{optional_text, Registry, RuleView};
use vstd::prelude::*;

verus! {

/// Depth limit of a session that sets none.
pub const DEFAULT_MAX_DEPTH: usize = 8;

/// Attempt limit of a session that sets none.
pub const DEFAULT_MAX_ATTEMPTS: usize = 4096;

/// What the caller found at a path.
#[derive(Clone, Copy, Debug, PartialEq, Eq)]
pub enum PathKind {
    Missing,
    File,
    Directory,
}

/// Why no session was made.
#[derive(Clone, Copy, Debug, PartialEq, Eq)]
pub enum ConfigError {
    /// The target path is empty or nothing exists there.
    TargetMissing,
    /// The target exists but is no regular file.
    TargetNotAFile,
    /// The output path is empty or names an existing file.
    OutputInvalid,
}

impl ConfigError {
    /// The text of the error.
    pub open spec fn message_text(self) -> Seq<char> {
        match self {
            ConfigError::TargetMissing => "Input file does not exist"@,
            ConfigError::TargetNotAFile => "Input path is not a file"@,
            ConfigError::OutputInvalid => "Output path is not a usable directory"@,
        }
    }

    /// The text of the error.
    pub fn message(self) -> (s: String)
        ensures
            s@ == self.message_text(),
    {
        match self {
            ConfigError::TargetMissing => "Input file does not exist".to_owned(),
            ConfigError::TargetNotAFile => "Input path is not a file".to_owned(),
            ConfigError::OutputInvalid => "Output path is not a usable directory".to_owned(),
        }
    }
}

/// The settings of a session; read-only during a run.
#[derive(Debug)]
pub struct Configuration {
    /// The file the session was opened on, if any.
    pub target_path: Option<String>,
    /// The directory under which extraction writes.
    pub output_root: String,
    pub filter: Filter,
    /// Walk every offset rather than skip ahead.
    pub full_search: bool,
    pub limits: Limits,
}

/// The output root of a session that names none.
pub open spec fn default_output_root() -> Seq<char> {
    "extractions"@
}

/// The output root of a session: the output path where one is given.
pub open spec fn chosen_output_root(output_path: Option<Seq<char>>) -> Seq<char> {
    match output_path {
        Some(p) => p,
        None => default_output_root(),
    }
}

/// Which error, if any, the given paths raise. The target is checked before
/// the output path.
pub open spec fn config_fault(
    target_path: Option<Seq<char>>,
    target_kind: PathKind,
    output_path: Option<Seq<char>>,
    output_kind: PathKind,
) -> Option<ConfigError> {
    if target_path is Some && (target_path.unwrap().len() == 0 || target_kind is Missing) {
        Some(ConfigError::TargetMissing)
    } else if target_path is Some && target_kind is Directory {
        Some(ConfigError::TargetNotAFile)
    } else if output_path is Some && (output_path.unwrap().len() == 0 || output_kind is File) {
        Some(ConfigError::OutputInvalid)
    } else {
        None
    }
}

/// Validates the settings of a session.
///
/// `target_kind` and `output_kind` say what the caller found at the two
/// paths; they are not consulted for a path that is not given. A session
/// without a target can scan buffers. Without an output path the output
/// root is `extractions`.
pub fn configure(
    target_path: Option<String>,
    target_kind: PathKind,
    output_path: Option<String>,
    output_kind: PathKind,
    restrict_to: Option<Vec<String>>,
    suppress: Option<Vec<String>>,
    full_search: bool,
) -> (r: Result<Configuration, ConfigError>)
    ensures
        (match config_fault(
            optional_text(target_path),
            target_kind,
            optional_text(output_path),
            output_kind,
        ) {
            Some(e) => r == Err::<Configuration, ConfigError>(e),
            None => r is Ok && ({
                let c = r.unwrap();
                &&& optional_text(c.target_path) == optional_text(target_path)
                &&& c.output_root@ == chosen_output_root(optional_text(output_path))
                &&& c.filter@.restrict_to == optional_names(restrict_to)
                &&& c.filter@.suppress == optional_names(suppress)
                &&& c.full_search == full_search
                &&& c.limits == (Limits {
                    max_depth: DEFAULT_MAX_DEPTH,
                    max_attempts: DEFAULT_MAX_ATTEMPTS,
                })
            }),
        }),
{
    match &target_path {
        Some(path) => {
            if path.as_str().unicode_len() == 0 {
                return Err(ConfigError::TargetMissing);
            }
            match target_kind {
                PathKind::Missing => {
                    return Err(ConfigError::TargetMissing);
                },
                PathKind::Directory => {
                    return Err(ConfigError::TargetNotAFile);
                },
                PathKind::File => {},
            }
        },
        None => {},
    }
    let output_root = match output_path {
        Some(path) => {
            if path.as_str().unicode_len() == 0 {
                return Err(ConfigError::OutputInvalid);
            }
            match output_kind {
                PathKind::File => {
                    return Err(ConfigError::OutputInvalid);
                },
                _ => {},
            }
            path
        },
        None => "extractions".to_owned(),
    };
    Ok(
        Configuration {
            target_path,
            output_root,
            filter: Filter { restrict_to, suppress },
            full_search,
            limits: Limits { max_depth: DEFAULT_MAX_DEPTH, max_attempts: DEFAULT_MAX_ATTEMPTS },
        },
    )
}

/// The mathematical content of what an extraction run returns.
pub open spec fn outcome_view(r: Result<ExtractionResults, OrchestrationError>) -> Result<
    Seq<FiledView>,
    FaultView,
> {
    match r {
        Ok(results) => Ok(results@),
        Err(e) => Err(e@),
    }
}

/// The rows render the entries, one row for each entry and in their order.
pub open spec fn rows_render_matches(rows: Seq<Vec<(String, String)>>, found: Seq<ResultView>) -> bool {
    &&& rows.len() == found.len()
    &&& forall|i: int| 0 <= i < rows.len() ==> row_text(#[trigger] rows[i]) == analysis_row(found[i])
}

/// The rows render a result of scanning the buffer.
pub open spec fn renders_scan(
    rows: Seq<Vec<(String, String)>>,
    registry: Seq<RuleView>,
    filter: FilterView,
    buffer: Seq<u8>,
) -> bool {
    exists|found: Seq<ResultView>|
        #[trigger] rows_render_matches(rows, found) && exists|verdicts: Seq<Verdict>|
            is_scan_result(found, registry, filter, buffer, verdicts)
}

/// The rows render the filed results, one row for each and in their order.
pub open spec fn rows_render_results(rows: Seq<Vec<(String, String)>>, filed: Seq<FiledView>) -> bool {
    &&& rows.len() == filed.len()
    &&& forall|i: int| 0 <= i < rows.len() ==> row_text(#[trigger] rows[i]) == extraction_row(filed[i])
}

/// What a scan followed by an extraction of everything it found returns as
/// rows: `found` is a result of the scan, the events account for the
/// outcome of the run that was opened on it, and the rows render the
/// results of that run.
pub open spec fn explains_rows(
    found: Seq<ResultView>,
    events: Seq<EventView>,
    limits: Limits,
    registry: Seq<RuleView>,
    filter: FilterView,
    buffer: Seq<u8>,
    source: Seq<char>,
    output_root: Seq<char>,
    outcome: Result<Vec<Vec<(String, String)>>, OrchestrationError>,
) -> bool {
    &&& exists|verdicts: Seq<Verdict>| is_scan_result(found, registry, filter, buffer, verdicts)
    &&& match outcome {
        Ok(rows) => exists|filed: Seq<FiledView>|
            #[trigger] explains(events, limits, registry, source, output_root, found, Ok(filed))
                && rows_render_results(rows@, filed),
        Err(e) => explains(events, limits, registry, source, output_root, found, Err(e@)),
    }
}

/// The outside world of an extraction run: the extractors that rules refer
/// to by name, and the files they write.
pub trait Host {
    /// Whether the caller wants the run to stop. Asked before each
    /// extraction.
    fn cancelled(&mut self) -> (stop: bool);

    /// Creates the directory at `path` with its parents; says whether it
    /// exists afterwards.
    fn create_directory(&mut self, path: &String) -> (created: bool);

    /// Runs the extractor named `extractor` on the match at `offset` of
    /// `buffer`. The extractor writes below `output_directory` only.
    fn run_extractor(
        &mut self,
        extractor: &String,
        buffer: &[u8],
        offset: usize,
        output_directory: &String,
    ) -> (outcome: ExtractionOutcome);

    /// Reads a file that an extractor wrote.
    fn read_file(&mut self, path: &String) -> (data: Option<Vec<u8>>);
}

/// A registry together with a configuration.
#[derive(Debug)]
pub struct Session {
    pub registry: Registry,
    pub configuration: Configuration,
}

impl Session {
    /// Makes a session from a registry and settings that [`configure`]
    /// accepts; no session is made from settings that it refuses.
    pub fn configure(
        registry: Registry,
        target_path: Option<String>,
        target_kind: PathKind,
        output_path: Option<String>,
        output_kind: PathKind,
        restrict_to: Option<Vec<String>>,
        suppress: Option<Vec<String>>,
        full_search: bool,
    ) -> (r: Result<Session, ConfigError>)
        ensures
            (match config_fault(
                optional_text(target_path),
                target_kind,
                optional_text(output_path),
                output_kind,
            ) {
                Some(e) => r == Err::<Session, ConfigError>(e),
                None => r is Ok && ({
                    let s = r.unwrap();
                    &&& s.registry@ == registry@
                    &&& optional_text(s.configuration.target_path) == optional_text(target_path)
                    &&& s.configuration.output_root@ == chosen_output_root(
                        optional_text(output_path),
                    )
                    &&& s.configuration.filter@.restrict_to == optional_names(restrict_to)
                    &&& s.configuration.filter@.suppress == optional_names(suppress)
                    &&& s.configuration.full_search == full_search
                    &&& s.configuration.limits == (Limits {
                        max_depth: DEFAULT_MAX_DEPTH,
                        max_attempts: DEFAULT_MAX_ATTEMPTS,
                    })
                }),
            }),
    {
        match configure(
            target_path,
            target_kind,
            output_path,
            output_kind,
            restrict_to,
            suppress,
            full_search,
        ) {
            Ok(configuration) => Ok(Session { registry, configuration }),
            Err(e) => Err(e),
        }
    }

    /// Scans the buffer with the session's registry, filter and search
    /// mode. See [`scan`].
    pub fn scan<V: Validators>(&self, buffer: &[u8], validators: &V) -> (r: AnalysisResults)
        ensures
            exists|verdicts: Seq<Verdict>|
                is_scan_result(
                    r@,
                    self.registry@,
                    self.configuration.filter@,
                    buffer@,
                    verdicts,
                ),
    {
        scan(
            &self.registry,
            &self.configuration.filter,
            buffer,
            self.configuration.full_search,
            validators,
        )
    }

    /// Scans like [`Session::scan`] until the signal is raised. See
    /// [`scan_until`].
    pub fn scan_until<V: Validators, S: StopSignal>(
        &self,
        buffer: &[u8],
        validators: &V,
        stop: &S,
    ) -> (r: AnalysisResults)
        ensures
            exists|verdicts: Seq<Verdict>|
                is_partial_scan_result(
                    r@,
                    self.registry@,
                    self.configuration.filter@,
                    buffer@,
                    verdicts,
                ),
    {
        scan_until(
            &self.registry,
            &self.configuration.filter,
            buffer,
            self.configuration.full_search,
            validators,
            stop,
        )
    }

    /// Extracts what `found` reports in `buffer`, the contents of the file
    /// at `source`, and then, level by level, what is found in the files
    /// that extraction writes.
    ///
    /// The run ends: it attempts at most `max_attempts` extractions and
    /// scans no file deeper than `max_depth`. It ends early, with the
    /// results as they stand, when the host asks for it. It fails only on a
    /// key collision.
    ///
    /// What is returned is what the orchestrator yields for the events that
    /// the host produced, each in answer to the action that was due: the
    /// results of the state it reached, when the run finished or was
    /// stopped before an extraction; the error, when it was aborted.
    pub fn extract<V: Validators, H: Host>(
        &self,
        buffer: &[u8],
        source: &str,
        found: &AnalysisResults,
        validators: &V,
        host: &mut H,
    ) -> (r: Result<ExtractionResults, OrchestrationError>)
        ensures
            exists|events: Seq<EventView>|
                #[trigger] explains(
                    events,
                    self.configuration.limits,
                    self.registry@,
                    source@,
                    self.configuration.output_root@,
                    found@,
                    outcome_view(r),
                ),
    {
        let ghost limits = self.configuration.limits;
        let ghost root = self.configuration.output_root@;
        let ghost mut events: Seq<EventView> = Seq::empty();
        let (mut orchestrator, first) = Orchestrator::start(
            self.configuration.limits,
            &self.registry,
            source,
            self.configuration.output_root.as_str(),
            found,
        );
        assert(in_turn(limits, self.registry@, source@, root, found@, events));
        let mut step = first;
        let mut current: Vec<u8> = Vec::new();
        let mut at_top: bool = true;
        loop
            invariant
                orchestrator.wf(),
                limits == self.configuration.limits,
                root == self.configuration.output_root@,
                (orchestrator@, step@) == run_after(limits, self.registry@, source@, root, found@, events),
                in_turn(limits, self.registry@, source@, root, found@, events),
                step is Extract ==> orchestrator@.awaiting is Extraction,
                step is Scan ==> orchestrator@.awaiting is Scan,
                step matches Step::Aborted(e) ==> e is KeyCollision,
            decreases effort(orchestrator@).0, effort(orchestrator@).1,
        {
            let ghost issued = step@;
            let event = match step {
                Step::Finished => {
                    let results = orchestrator.into_results();
                    assert(explains(events, limits, self.registry@, source@, root, found@, Ok(results@)));
                    return Ok(results);
                },
                Step::Aborted(e) => {
                    assert(explains(events, limits, self.registry@, source@, root, found@, Err(e@)));
                    return Err(e);
                },
                Step::Extract(task) => {
                    if host.cancelled() {
                        let results = orchestrator.into_results();
                        assert(explains(
                            events,
                            limits,
                            self.registry@,
                            source@,
                            root,
                            found@,
                            Ok(results@),
                        ));
                        return Ok(results);
                    }
                    if host.create_directory(&task.output_directory) {
                        let outcome = if at_top {
                            host.run_extractor(
                                &task.extractor,
                                buffer,
                                task.offset,
                                &task.output_directory,
                            )
                        } else {
                            host.run_extractor(
                                &task.extractor,
                                current.as_slice(),
                                task.offset,
                                &task.output_directory,
                            )
                        };
                        Event::Extracted(outcome)
                    } else {
                        Event::DirectoryFailed
                    }
                },
                Step::Scan(file) => match host.read_file(&file.path) {
                    Some(data) => {
                        let found_here = self.scan(data.as_slice(), validators);
                        current = data;
                        at_top = false;
                        Event::Scanned(found_here)
                    },
                    None => Event::Unreadable,
                },
            };
            let ghost answer = event@;
            let next = orchestrator.advance(&self.registry, event);
            proof {
                lemma_run_extends(limits, self.registry@, source@, root, found@, events, answer);
                events = events.push(answer);
            }
            match next {
                Step::Finished => {
                    let results = orchestrator.into_results();
                    assert(explains(events, limits, self.registry@, source@, root, found@, Ok(results@)));
                    return Ok(results);
                },
                Step::Aborted(e) => {
                    assert(explains(events, limits, self.registry@, source@, root, found@, Err(e@)));
                    return Err(e);
                },
                _ => {},
            }
            step = next;
        }
    }

    /// Scans the buffer and renders what was found as rows of text.
    pub fn scan_rows<V: Validators>(&self, buffer: &[u8], validators: &V) -> (rows: Vec<
        Vec<(String, String)>,
    >)
        ensures
            renders_scan(rows@, self.registry@, self.configuration.filter@, buffer@),
    {
        let found = self.scan(buffer, validators);
        let rows = analysis_rows(&found);
        assert(rows_render_matches(rows@, found@));
        rows
    }

    /// Scans the buffer, the contents of the file at `source`, extracts
    /// everything that was found, and renders the results as rows of text.
    pub fn extract_rows<V: Validators, H: Host>(
        &self,
        buffer: &[u8],
        source: &str,
        validators: &V,
        host: &mut H,
    ) -> (r: Result<Vec<Vec<(String, String)>>, OrchestrationError>)
        ensures
            exists|found: Seq<ResultView>, events: Seq<EventView>|
                #[trigger] explains_rows(
                    found,
                    events,
                    self.configuration.limits,
                    self.registry@,
                    self.configuration.filter@,
                    buffer@,
                    source@,
                    self.configuration.output_root@,
                    r,
                ),
    {
        let found = self.scan(buffer, validators);
        let outcome = self.extract(buffer, source, &found, validators, host);
        let ghost events = choose|events: Seq<EventView>|
            #[trigger] explains(
                events,
                self.configuration.limits,
                self.registry@,
                source@,
                self.configuration.output_root@,
                found@,
                outcome_view(outcome),
            );
        match outcome {
            Ok(results) => {
                let rows = extraction_rows(&results);
                assert(rows_render_results(rows@, results@));
                assert(explains_rows(
                    found@,
                    events,
                    self.configuration.limits,
                    self.registry@,
                    self.configuration.filter@,
                    buffer@,
                    source@,
                    self.configuration.output_root@,
                    Ok(rows),
                ));
                Ok(rows)
            },
            Err(e) => {
                assert(explains_rows(
                    found@,
                    events,
                    self.configuration.limits,
                    self.registry@,
                    self.configuration.filter@,
                    buffer@,
                    source@,
                    self.configuration.output_root@,
                    Err(e),
                ));
                Err(e)
            },
        }
    }
}

} // verus!
