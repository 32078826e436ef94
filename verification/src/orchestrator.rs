//! The extraction orchestrator: a work queue of files and extraction tasks,
//! advanced one outside action at a time.
//!
//! The orchestrator performs no I/O. It says which action is due, an
//! extraction or the scan of a freshly written file, and is told what came
//! of it. Depth and attempt limits are enforced here, so that every run ends.

use crate::aggregator::{
    first_collision, keys_distinct, lemma_distinct_no_collision, lemma_first_collision,
    lemma_no_collision, AggregateError, ExtractionResult, ExtractionResults, ExtractionView,
    FiledView,
};
use crate::resolver::{entries_distinct, AnalysisResults, ResultView};
use crate::signature::{Registry, RuleView};
use crate::text::{
    directory_of, key_of, lemma_keys_apart, output_directory, result_key, root_stem, stem_under,
};
use std::collections::VecDeque;
use vstd::prelude::*;

verus! {

/// The bounds of a run.
#[derive(Clone, Copy, Debug, PartialEq, Eq)]
pub struct Limits {
    /// The depth of the deepest file that is scanned. The file the run
    /// starts on has depth 0; a file written by an extraction from a file of
    /// depth `d` has depth `d + 1`.
    pub max_depth: usize,
    /// How many extractions a run attempts in all.
    pub max_attempts: usize,
}

/// What an extractor reports.
#[derive(Clone, Debug, PartialEq, Eq)]
pub struct ExtractionOutcome {
    pub success: bool,
    pub bytes_consumed: Option<usize>,
    pub written_paths: Vec<String>,
}

/// The mathematical content of an [`ExtractionOutcome`].
pub struct OutcomeView {
    pub success: bool,
    pub bytes_consumed: Option<usize>,
    pub written_paths: Seq<Seq<char>>,
}

impl View for ExtractionOutcome {
    type V = OutcomeView;

    open spec fn view(&self) -> OutcomeView {
        OutcomeView {
            success: self.success,
            bytes_consumed: self.bytes_consumed,
            written_paths: self.written_paths@.map_values(|p: String| p@),
        }
    }
}

/// A file that waits to be scanned.
#[derive(Clone, Debug, PartialEq, Eq)]
pub struct PendingFile {
    pub path: String,
    /// What the output directories of this file's matches begin with.
    pub stem: String,
    pub depth: usize,
}

/// The mathematical content of a [`PendingFile`].
pub struct FileView {
    pub path: Seq<char>,
    pub stem: Seq<char>,
    pub depth: usize,
}

impl View for PendingFile {
    type V = FileView;

    open spec fn view(&self) -> FileView {
        FileView { path: self.path@, stem: self.stem@, depth: self.depth }
    }
}

/// One extraction that is due: the extractor named `extractor` is to be run
/// on the file `source` at `offset`, writing into `output_directory`.
#[derive(Clone, Debug, PartialEq, Eq)]
pub struct ExtractionTask {
    pub source: String,
    pub offset: usize,
    pub signature: String,
    pub extractor: String,
    pub output_directory: String,
    pub depth: usize,
    /// Position of this match's entry in the result set.
    pub slot: usize,
}

/// The mathematical content of an [`ExtractionTask`].
pub struct TaskView {
    pub source: Seq<char>,
    pub offset: usize,
    pub signature: Seq<char>,
    pub extractor: Seq<char>,
    pub output_directory: Seq<char>,
    pub depth: usize,
    pub slot: nat,
}

impl View for ExtractionTask {
    type V = TaskView;

    open spec fn view(&self) -> TaskView {
        TaskView {
            source: self.source@,
            offset: self.offset,
            signature: self.signature@,
            extractor: self.extractor@,
            output_directory: self.output_directory@,
            depth: self.depth,
            slot: self.slot as nat,
        }
    }
}

/// Why a run was aborted.
#[derive(Clone, Debug, PartialEq, Eq)]
pub enum OrchestrationError {
    /// Two results claim the same key.
    KeyCollision(String),
    /// An event arrived that answers no action that is under way.
    OutOfTurn,
}

/// The mathematical content of an [`OrchestrationError`].
pub enum FaultView {
    KeyCollision(Seq<char>),
    OutOfTurn,
}

impl View for OrchestrationError {
    type V = FaultView;

    open spec fn view(&self) -> FaultView {
        match self {
            OrchestrationError::KeyCollision(k) => FaultView::KeyCollision(k@),
            OrchestrationError::OutOfTurn => FaultView::OutOfTurn,
        }
    }
}

/// The action that is due next.
#[derive(Clone, Debug, PartialEq, Eq)]
pub enum Step {
    /// Create the task's output directory and run its extractor; answer with
    /// [`Event::Extracted`] or [`Event::DirectoryFailed`].
    Extract(ExtractionTask),
    /// Read and scan the file; answer with [`Event::Scanned`] or
    /// [`Event::Unreadable`].
    Scan(PendingFile),
    /// Nothing is left to do within the limits.
    Finished,
    /// The run cannot go on.
    Aborted(OrchestrationError),
}

/// The mathematical content of a [`Step`].
pub enum StepView {
    Extract(TaskView),
    Scan(FileView),
    Finished,
    Aborted(FaultView),
}

impl View for Step {
    type V = StepView;

    open spec fn view(&self) -> StepView {
        match self {
            Step::Extract(t) => StepView::Extract(t@),
            Step::Scan(f) => StepView::Scan(f@),
            Step::Finished => StepView::Finished,
            Step::Aborted(e) => StepView::Aborted(e@),
        }
    }
}

/// What came of the action that was due.
#[derive(Debug)]
pub enum Event {
    /// The extractor ran and reported this outcome.
    Extracted(ExtractionOutcome),
    /// The output directory could not be created; the extractor did not run.
    DirectoryFailed,
    /// The file was read and scanned, with these results.
    Scanned(AnalysisResults),
    /// The file could not be read.
    Unreadable,
}

/// The mathematical content of an [`Event`].
pub enum EventView {
    Extracted(OutcomeView),
    DirectoryFailed,
    Scanned(Seq<ResultView>),
    Unreadable,
}

impl View for Event {
    type V = EventView;

    open spec fn view(&self) -> EventView {
        match self {
            Event::Extracted(o) => EventView::Extracted(o@),
            Event::DirectoryFailed => EventView::DirectoryFailed,
            Event::Scanned(r) => EventView::Scanned(r@),
            Event::Unreadable => EventView::Unreadable,
        }
    }
}

/// The action that is under way.
pub enum AwaitingView {
    Nothing,
    Extraction(TaskView),
    Scan(FileView),
}

/// The state of a run.
pub struct OrchestratorView {
    pub limits: Limits,
    /// One entry for each match submitted so far.
    pub results: Seq<FiledView>,
    /// Files that wait to be scanned, first in first out.
    pub files: Seq<FileView>,
    /// Extractions of the current file that wait to be attempted.
    pub tasks: Seq<TaskView>,
    /// Extractions attempted so far.
    pub attempts: nat,
    pub awaiting: AwaitingView,
}

/// The extractor registered for the signature `id`, if the signature is
/// known and names one.
pub open spec fn extractor_for(registry: Seq<RuleView>, id: Seq<char>) -> Option<Seq<char>> {
    if exists|i: int| 0 <= i < registry.len() && (#[trigger] registry[i]).id == id {
        let i = choose|i: int| 0 <= i < registry.len() && (#[trigger] registry[i]).id == id;
        registry[i].extractor
    } else {
        None
    }
}

/// The entry filed for a match when its file is submitted: not yet
/// successful, with the name of its extractor, or an empty name where none
/// is registered, and no output directory.
pub open spec fn planned_result(registry: Seq<RuleView>, source: Seq<char>, e: ResultView) -> FiledView {
    FiledView {
        key: key_of(source, e.offset as nat, e.id),
        result: ExtractionView {
            size: None,
            success: false,
            extractor: match extractor_for(registry, e.id) {
                Some(x) => x,
                None => Seq::empty(),
            },
            output_directory: Seq::empty(),
        },
    }
}

/// The entries filed for the matches of a file, in their order.
pub open spec fn planned_results(
    registry: Seq<RuleView>,
    source: Seq<char>,
    entries: Seq<ResultView>,
) -> Seq<FiledView> {
    entries.map_values(|e: ResultView| planned_result(registry, source, e))
}

/// The extractions due for the matches of a file: one for each match that
/// has an extractor, in the order of the matches. The entry of the match at
/// index `i` stands at position `base + i` of the result set.
pub open spec fn planned_tasks(
    registry: Seq<RuleView>,
    file: FileView,
    base: nat,
    entries: Seq<ResultView>,
) -> Seq<TaskView>
    decreases entries.len(),
{
    if entries.len() == 0 {
        Seq::empty()
    } else {
        let earlier = planned_tasks(registry, file, base, entries.drop_last());
        let e = entries.last();
        match extractor_for(registry, e.id) {
            Some(x) => earlier.push(
                TaskView {
                    source: file.path,
                    offset: e.offset,
                    signature: e.id,
                    extractor: x,
                    output_directory: directory_of(file.stem, e.offset as nat, e.id),
                    depth: file.depth,
                    slot: (base + entries.len() - 1) as nat,
                },
            ),
            None => earlier,
        }
    }
}

/// The entry of a task once its extractor has run.
pub open spec fn settled(task: TaskView, outcome: OutcomeView) -> ExtractionView {
    ExtractionView {
        size: outcome.bytes_consumed,
        success: outcome.success,
        extractor: task.extractor,
        output_directory: task.output_directory,
    }
}

/// The entry of a task whose output directory could not be created.
pub open spec fn without_directory(task: TaskView) -> ExtractionView {
    ExtractionView {
        size: None,
        success: false,
        extractor: task.extractor,
        output_directory: task.output_directory,
    }
}

/// The files that an extraction wrote, queued one level deeper. Each file's
/// own path is the stem of its output directories.
pub open spec fn written_files(paths: Seq<Seq<char>>, depth: usize) -> Seq<FileView> {
    paths.map_values(|p: Seq<char>| FileView { path: p, stem: p, depth })
}

/// A state after an event, and the fault that the event raised, if any.
pub struct Handled {
    pub state: OrchestratorView,
    pub fault: Option<FaultView>,
}

/// Takes in what came of the action under way.
///
/// The outcome of an extraction settles the entry of its match; where it
/// succeeded below the depth limit, the files it wrote are queued. The
/// results of a scan are filed, one entry for each match, and the
/// extractions due for them become the current tasks; if a key is already
/// taken nothing is filed and the run is at fault. An event that answers no
/// action under way changes nothing and is a fault.
#[verifier::opaque]
pub open spec fn handle(s: OrchestratorView, registry: Seq<RuleView>, event: EventView) -> Handled {
    match (s.awaiting, event) {
        (AwaitingView::Extraction(task), EventView::Extracted(outcome)) => Handled {
            state: OrchestratorView {
                results: s.results.update(
                    task.slot as int,
                    FiledView { key: s.results[task.slot as int].key, result: settled(task, outcome) },
                ),
                files: if outcome.success && task.depth < s.limits.max_depth {
                    s.files + written_files(outcome.written_paths, (task.depth + 1) as usize)
                } else {
                    s.files
                },
                awaiting: AwaitingView::Nothing,
                ..s
            },
            fault: None,
        },
        (AwaitingView::Extraction(task), EventView::DirectoryFailed) => Handled {
            state: OrchestratorView {
                results: s.results.update(
                    task.slot as int,
                    FiledView { key: s.results[task.slot as int].key, result: without_directory(task) },
                ),
                awaiting: AwaitingView::Nothing,
                ..s
            },
            fault: None,
        },
        (AwaitingView::Scan(file), EventView::Scanned(entries)) => {
            let added = planned_results(registry, file.path, entries);
            let at = first_collision(s.results, added, 0);
            if at < added.len() {
                Handled {
                    state: OrchestratorView {
                        tasks: Seq::empty(),
                        awaiting: AwaitingView::Nothing,
                        ..s
                    },
                    fault: Some(FaultView::KeyCollision(added[at].key)),
                }
            } else {
                Handled {
                    state: OrchestratorView {
                        results: s.results + added,
                        tasks: planned_tasks(registry, file, s.results.len(), entries),
                        awaiting: AwaitingView::Nothing,
                        ..s
                    },
                    fault: None,
                }
            }
        },
        (AwaitingView::Scan(file), EventView::Unreadable) => Handled {
            state: OrchestratorView { tasks: Seq::empty(), awaiting: AwaitingView::Nothing, ..s },
            fault: None,
        },
        _ => Handled { state: s, fault: Some(FaultView::OutOfTurn) },
    }
}

/// Chooses the next action. While attempts are left, the next task of the
/// current file is due; when the file has none left, the next queued file.
/// Otherwise the run is finished.
#[verifier::opaque]
pub open spec fn decide(s: OrchestratorView) -> (OrchestratorView, StepView) {
    if s.attempts < s.limits.max_attempts && s.tasks.len() > 0 {
        (
            OrchestratorView {
                tasks: s.tasks.drop_first(),
                attempts: s.attempts + 1,
                awaiting: AwaitingView::Extraction(s.tasks[0]),
                ..s
            },
            StepView::Extract(s.tasks[0]),
        )
    } else if s.attempts < s.limits.max_attempts && s.files.len() > 0 {
        (
            OrchestratorView {
                files: s.files.drop_first(),
                tasks: Seq::empty(),
                awaiting: AwaitingView::Scan(s.files[0]),
                ..s
            },
            StepView::Scan(s.files[0]),
        )
    } else {
        (s, StepView::Finished)
    }
}

/// The state and the action after an event: the event is taken in, and
/// unless it raised a fault the next action is chosen.
pub open spec fn after(s: OrchestratorView, registry: Seq<RuleView>, event: EventView) -> (
    OrchestratorView,
    StepView,
) {
    let h = handle(s, registry, event);
    match h.fault {
        Some(f) => (h.state, StepView::Aborted(f)),
        None => decide(h.state),
    }
}

/// The state in which the scan of the file a run starts on is under way.
pub open spec fn opening(limits: Limits, source: Seq<char>, output_root: Seq<char>) -> OrchestratorView {
    OrchestratorView {
        limits,
        results: Seq::empty(),
        files: Seq::empty(),
        tasks: Seq::empty(),
        attempts: 0,
        awaiting: AwaitingView::Scan(
            FileView { path: source, stem: root_stem(output_root, source), depth: 0 },
        ),
    }
}

/// What every reachable state satisfies: the attempts stay within the
/// limit, no file or task lies deeper than the depth limit, every task
/// points at an entry of the result set, and keys are distinct.
pub open spec fn sound(s: OrchestratorView) -> bool {
    &&& s.attempts <= s.limits.max_attempts
    &&& keys_distinct(s.results)
    &&& forall|i: int|
        0 <= i < s.tasks.len() ==> (#[trigger] s.tasks[i]).slot < s.results.len() && s.tasks[i].depth
            <= s.limits.max_depth
    &&& forall|i: int| 0 <= i < s.files.len() ==> (#[trigger] s.files[i]).depth <= s.limits.max_depth
    &&& match s.awaiting {
        AwaitingView::Nothing => true,
        AwaitingView::Extraction(t) => t.slot < s.results.len() && t.depth <= s.limits.max_depth
            && s.attempts >= 1,
        AwaitingView::Scan(f) => f.depth <= s.limits.max_depth,
    }
}

/// The work a run may still do: the attempts left, counting the one under
/// way, and the files left, counting the one under way.
pub open spec fn effort(s: OrchestratorView) -> (nat, nat) {
    (
        (s.limits.max_attempts - s.attempts + (if s.awaiting is Extraction {
            1nat
        } else {
            0nat
        })) as nat,
        s.files.len() + (if s.awaiting is Scan {
            1nat
        } else {
            0nat
        }),
    )
}

/// Lexicographic order on pairs.
pub open spec fn less(a: (nat, nat), b: (nat, nat)) -> bool {
    a.0 < b.0 || (a.0 == b.0 && a.1 < b.1)
}

/// Every task planned for a file points at an entry filed for the file,
/// lies at the file's depth, and belongs to a match whose signature has the
/// task's extractor.
pub proof fn lemma_planned_tasks(
    registry: Seq<RuleView>,
    file: FileView,
    base: nat,
    entries: Seq<ResultView>,
)
    ensures
        forall|k: int|
            0 <= k < planned_tasks(registry, file, base, entries).len() ==> ({
                let t = #[trigger] planned_tasks(registry, file, base, entries)[k];
                &&& base <= t.slot < base + entries.len()
                &&& t.depth == file.depth
                &&& extractor_for(registry, entries[t.slot - base].id) == Some(t.extractor)
            }),
    decreases entries.len(),
{
    if entries.len() > 0 {
        let all = planned_tasks(registry, file, base, entries);
        let earlier = planned_tasks(registry, file, base, entries.drop_last());
        lemma_planned_tasks(registry, file, base, entries.drop_last());
        assert forall|k: int| 0 <= k < all.len() implies {
            let t = #[trigger] all[k];
            &&& base <= t.slot < base + entries.len()
            &&& t.depth == file.depth
            &&& extractor_for(registry, entries[t.slot - base].id) == Some(t.extractor)
        } by {
            if k < earlier.len() {
                assert(all[k] == earlier[k]);
                assert(entries.drop_last()[earlier[k].slot - base] == entries[earlier[k].slot - base]);
            }
        }
    }
}

/// The matches of one file never collide with each other: entries that
/// differ in offset or signature are filed under different keys.
pub proof fn lemma_file_keys_distinct(
    registry: Seq<RuleView>,
    source: Seq<char>,
    entries: Seq<ResultView>,
)
    requires
        entries_distinct(entries),
    ensures
        keys_distinct(planned_results(registry, source, entries)),
{
    let planned = planned_results(registry, source, entries);
    assert forall|i: int, j: int| 0 <= i < j < planned.len() implies planned[i].key
        != planned[j].key by {
        if planned[i].key == planned[j].key {
            lemma_keys_apart(
                source,
                entries[i].offset as nat,
                entries[i].id,
                entries[j].offset as nat,
                entries[j].id,
            );
        }
    }
}

/// A run opens without fault: the entries of the file it starts on are all
/// filed.
pub proof fn lemma_opening_files_all(
    limits: Limits,
    registry: Seq<RuleView>,
    source: Seq<char>,
    output_root: Seq<char>,
    found: Seq<ResultView>,
)
    requires
        entries_distinct(found),
    ensures
        ({
            let (state, step) = after(
                opening(limits, source, output_root),
                registry,
                EventView::Scanned(found),
            );
            &&& !(step is Aborted)
            &&& state.results == planned_results(registry, source, found)
        }),
{
    reveal(handle);
    reveal(decide);
    let added = planned_results(registry, source, found);
    lemma_file_keys_distinct(registry, source, found);
    assert(Seq::<FiledView>::empty() + added =~= added);
    lemma_distinct_no_collision(Seq::empty(), added, 0);
}

/// Every step keeps the run within its limits and brings it nearer its end.
///
/// From a sound state, whatever the event: the next state is sound; an
/// extraction is issued only while attempts are left, and it is the only
/// step that counts as an attempt; no issued task or file lies deeper than
/// the depth limit; entries keep their keys and none is removed; and each
/// issued action strictly lowers the effort that is left, so that a run
/// cannot go on for ever.
pub proof fn lemma_step(s: OrchestratorView, registry: Seq<RuleView>, event: EventView)
    requires
        sound(s),
    ensures
        ({
            let (next, step) = after(s, registry, event);
            &&& sound(next)
            &&& next.limits == s.limits
            &&& step matches StepView::Extract(t) ==> next.attempts == s.attempts + 1 && t.depth
                <= s.limits.max_depth && t.slot < next.results.len()
            &&& !(step is Extract) ==> next.attempts == s.attempts
            &&& step matches StepView::Scan(f) ==> f.depth <= s.limits.max_depth
            &&& next.results.len() >= s.results.len()
            &&& forall|i: int|
                0 <= i < s.results.len() ==> (#[trigger] next.results[i]).key == s.results[i].key
            &&& (step is Extract || step is Scan) ==> less(effort(next), effort(s))
            &&& step is Extract ==> next.awaiting is Extraction
            &&& step is Scan ==> next.awaiting is Scan
            &&& (s.awaiting is Extraction && (event is Extracted || event is DirectoryFailed)) || (
            s.awaiting is Scan && (event is Scanned || event is Unreadable)) ==> !(step
                == StepView::Aborted(FaultView::OutOfTurn))
        }),
{
    reveal(handle);
    reveal(decide);
    let h = handle(s, registry, event);
    match (s.awaiting, event) {
        (AwaitingView::Extraction(task), EventView::Extracted(outcome)) => {
            assert forall|i: int, j: int| 0 <= i < j < h.state.results.len() implies h.state.results[i].key
                != h.state.results[j].key by {
                assert(s.results[i].key != s.results[j].key);
            }
            assert forall|i: int| 0 <= i < h.state.files.len() implies (#[trigger] h.state.files[i]).depth
                <= s.limits.max_depth by {
                if i < s.files.len() {
                    assert(h.state.files[i] == s.files[i]);
                }
            }
            assert(sound(h.state));
        },
        (AwaitingView::Extraction(task), EventView::DirectoryFailed) => {
            assert forall|i: int, j: int| 0 <= i < j < h.state.results.len() implies h.state.results[i].key
                != h.state.results[j].key by {
                assert(s.results[i].key != s.results[j].key);
            }
            assert(sound(h.state));
        },
        (AwaitingView::Scan(file), EventView::Scanned(entries)) => {
            let added = planned_results(registry, file.path, entries);
            lemma_first_collision(s.results, added, 0);
            if first_collision(s.results, added, 0) == added.len() {
                assert(s.results + added.subrange(0, 0) =~= s.results);
                lemma_no_collision(s.results, added, 0);
                lemma_planned_tasks(registry, file, s.results.len(), entries);
            }
            assert(sound(h.state));
        },
        (AwaitingView::Scan(file), EventView::Unreadable) => {
            assert(sound(h.state));
        },
        _ => {
            assert(sound(h.state));
        },
    }
}

/// The event answers the step: an extraction is answered by its outcome or
/// by the failure to create its directory, a scan by its results or by the
/// failure to read the file.
pub open spec fn answers(event: EventView, step: StepView) -> bool {
    match step {
        StepView::Extract(_) => event is Extracted || event is DirectoryFailed,
        StepView::Scan(_) => event is Scanned || event is Unreadable,
        _ => false,
    }
}

/// The state of a run and the action due after the given events. The run
/// opens on the file at `source`, whose scan gave `found`.
pub open spec fn run_after(
    limits: Limits,
    registry: Seq<RuleView>,
    source: Seq<char>,
    output_root: Seq<char>,
    found: Seq<ResultView>,
    events: Seq<EventView>,
) -> (OrchestratorView, StepView)
    decreases events.len(),
{
    if events.len() == 0 {
        after(opening(limits, source, output_root), registry, EventView::Scanned(found))
    } else {
        after(
            run_after(limits, registry, source, output_root, found, events.drop_last()).0,
            registry,
            events.last(),
        )
    }
}

/// Each event of the run answers the action that was due when it came.
pub open spec fn in_turn(
    limits: Limits,
    registry: Seq<RuleView>,
    source: Seq<char>,
    output_root: Seq<char>,
    found: Seq<ResultView>,
    events: Seq<EventView>,
) -> bool {
    forall|i: int|
        0 <= i < events.len() ==> answers(
            #[trigger] events[i],
            run_after(limits, registry, source, output_root, found, events.subrange(0, i)).1,
        )
}

/// The events account for the outcome of a run: they come in turn, and
/// what the orchestrator yields for them is the outcome. A run that yields
/// results has finished, or was stopped when an extraction was due; a run
/// that yields a fault was aborted with it, and only a key collision can be
/// the fault of a run whose events come in turn.
pub open spec fn explains(
    events: Seq<EventView>,
    limits: Limits,
    registry: Seq<RuleView>,
    source: Seq<char>,
    output_root: Seq<char>,
    found: Seq<ResultView>,
    outcome: Result<Seq<FiledView>, FaultView>,
) -> bool {
    let (state, step) = run_after(limits, registry, source, output_root, found, events);
    &&& in_turn(limits, registry, source, output_root, found, events)
    &&& match outcome {
        Ok(results) => results == state.results && (step is Finished || step is Extract),
        Err(fault) => step == StepView::Aborted(fault) && fault is KeyCollision,
    }
}

/// A run that is in turn stays in turn when an event is added that answers
/// the action due, and goes on from the state it had reached.
pub proof fn lemma_run_extends(
    limits: Limits,
    registry: Seq<RuleView>,
    source: Seq<char>,
    output_root: Seq<char>,
    found: Seq<ResultView>,
    events: Seq<EventView>,
    event: EventView,
)
    requires
        in_turn(limits, registry, source, output_root, found, events),
        answers(event, run_after(limits, registry, source, output_root, found, events).1),
    ensures
        in_turn(limits, registry, source, output_root, found, events.push(event)),
        run_after(limits, registry, source, output_root, found, events.push(event)) == after(
            run_after(limits, registry, source, output_root, found, events).0,
            registry,
            event,
        ),
{
    let longer = events.push(event);
    assert(longer.drop_last() == events);
    assert(longer.last() == event);
    assert forall|i: int| 0 <= i < longer.len() implies answers(
        #[trigger] longer[i],
        run_after(limits, registry, source, output_root, found, longer.subrange(0, i)).1,
    ) by {
        if i < events.len() {
            assert(longer.subrange(0, i) == events.subrange(0, i));
            assert(longer[i] == events[i]);
        } else {
            assert(longer.subrange(0, i) == events);
        }
    }
}

/// However long a run goes on, it stays within its limits: the state is
/// sound, so the number of extractions attempted never exceeds the attempt
/// limit, and nothing that was issued last lies deeper than the depth
/// limit.
pub proof fn lemma_run(
    limits: Limits,
    registry: Seq<RuleView>,
    source: Seq<char>,
    output_root: Seq<char>,
    found: Seq<ResultView>,
    events: Seq<EventView>,
)
    ensures
        ({
            let (state, step) = run_after(limits, registry, source, output_root, found, events);
            &&& sound(state)
            &&& state.limits == limits
            &&& state.attempts <= limits.max_attempts
            &&& step matches StepView::Extract(t) ==> t.depth <= limits.max_depth
            &&& step matches StepView::Scan(f) ==> f.depth <= limits.max_depth
        }),
    decreases events.len(),
{
    if events.len() == 0 {
        lemma_step(opening(limits, source, output_root), registry, EventView::Scanned(found));
    } else {
        lemma_run(limits, registry, source, output_root, found, events.drop_last());
        lemma_step(
            run_after(limits, registry, source, output_root, found, events.drop_last()).0,
            registry,
            events.last(),
        );
    }
}

/// No extraction that is due or under way points at the entry at `slot`.
pub open spec fn untouched(s: OrchestratorView, slot: nat) -> bool {
    &&& forall|i: int| 0 <= i < s.tasks.len() ==> (#[trigger] s.tasks[i]).slot != slot
    &&& s.awaiting matches AwaitingView::Extraction(t) ==> t.slot != slot
}

/// An entry that no extraction points at is left as it is by every step,
/// and no later extraction points at it.
pub proof fn lemma_step_spares(
    s: OrchestratorView,
    registry: Seq<RuleView>,
    event: EventView,
    slot: nat,
)
    requires
        sound(s),
        slot < s.results.len(),
        untouched(s, slot),
    ensures
        ({
            let (next, step) = after(s, registry, event);
            &&& slot < next.results.len()
            &&& untouched(next, slot)
            &&& next.results[slot as int] == s.results[slot as int]
        }),
{
    reveal(handle);
    reveal(decide);
    let h = handle(s, registry, event);
    match (s.awaiting, event) {
        (AwaitingView::Scan(file), EventView::Scanned(entries)) => {
            lemma_planned_tasks(registry, file, s.results.len(), entries);
            lemma_first_collision(s.results, planned_results(registry, file.path, entries), 0);
        },
        _ => {},
    }
    assert(untouched(h.state, slot));
    if h.fault is None {
        let (next, step) = decide(h.state);
        assert forall|i: int| 0 <= i < next.tasks.len() implies (#[trigger] next.tasks[i]).slot
            != slot by {
            if next.tasks.len() < h.state.tasks.len() {
                assert(next.tasks[i] == h.state.tasks[i + 1]);
            }
        }
    }
}

/// A match without an extractor is recorded as a failure with an empty
/// output directory, and the record stands for the rest of the run: after
/// any events, the entry of such a match of the file the run started on is
/// the one that was filed for it.
pub proof fn lemma_run_spares(
    limits: Limits,
    registry: Seq<RuleView>,
    source: Seq<char>,
    output_root: Seq<char>,
    found: Seq<ResultView>,
    events: Seq<EventView>,
    i: int,
)
    requires
        entries_distinct(found),
        0 <= i < found.len(),
        extractor_for(registry, found[i].id) is None,
    ensures
        ({
            let state = run_after(limits, registry, source, output_root, found, events).0;
            &&& i < state.results.len()
            &&& untouched(state, i as nat)
            &&& state.results[i] == planned_result(registry, source, found[i])
            &&& !state.results[i].result.success
            &&& state.results[i].result.output_directory.len() == 0
        }),
    decreases events.len(),
{
    if events.len() == 0 {
        reveal(handle);
        reveal(decide);
        let start = opening(limits, source, output_root);
        let file = FileView { path: source, stem: root_stem(output_root, source), depth: 0 };
        lemma_opening_files_all(limits, registry, source, output_root, found);
        lemma_planned_tasks(registry, file, 0, found);
        let h = handle(start, registry, EventView::Scanned(found));
        assert(untouched(h.state, i as nat));
        let (next, step) = decide(h.state);
        assert forall|k: int| 0 <= k < next.tasks.len() implies (#[trigger] next.tasks[k]).slot
            != i by {
            if next.tasks.len() < h.state.tasks.len() {
                assert(next.tasks[k] == h.state.tasks[k + 1]);
            }
        }
    } else {
        lemma_run_spares(limits, registry, source, output_root, found, events.drop_last(), i);
        lemma_run(limits, registry, source, output_root, found, events.drop_last());
        lemma_step_spares(
            run_after(limits, registry, source, output_root, found, events.drop_last()).0,
            registry,
            events.last(),
            i as nat,
        );
    }
}

/// The action under way, as the orchestrator holds it.
#[derive(Debug)]
enum Awaiting {
    Nothing,
    Extraction(ExtractionTask),
    Scan(PendingFile),
}

impl View for Awaiting {
    type V = AwaitingView;

    closed spec fn view(&self) -> AwaitingView {
        match self {
            Awaiting::Nothing => AwaitingView::Nothing,
            Awaiting::Extraction(t) => AwaitingView::Extraction(t@),
            Awaiting::Scan(f) => AwaitingView::Scan(f@),
        }
    }
}

impl PendingFile {
    /// A copy with the same content.
    pub fn duplicate(&self) -> (r: PendingFile)
        ensures
            r@ == self@,
    {
        PendingFile { path: self.path.clone(), stem: self.stem.clone(), depth: self.depth }
    }
}

impl ExtractionTask {
    /// A copy with the same content.
    pub fn duplicate(&self) -> (r: ExtractionTask)
        ensures
            r@ == self@,
    {
        ExtractionTask {
            source: self.source.clone(),
            offset: self.offset,
            signature: self.signature.clone(),
            extractor: self.extractor.clone(),
            output_directory: self.output_directory.clone(),
            depth: self.depth,
            slot: self.slot,
        }
    }
}

/// The name of the extractor registered for the signature `id`.
fn find_extractor(registry: &Registry, id: &String) -> (r: Option<String>)
    ensures
        crate::signature::optional_text(r) == extractor_for(registry@, id@),
{
    registry.identifiers_distinct();
    match registry.find(id) {
        Some(i) => {
            proof {
                let j = choose|j: int| 0 <= j < registry@.len() && (#[trigger] registry@[j]).id == id@;
                if j < i {
                    assert(registry@[j].id != registry@[i as int].id);
                }
                if i < j {
                    assert(registry@[i as int].id != registry@[j].id);
                }
            }
            match &registry.rule(i).extractor {
                Some(x) => Some(x.clone()),
                None => None,
            }
        },
        None => None,
    }
}

/// The state machine that drives extraction.
#[derive(Debug)]
pub struct Orchestrator {
    limits: Limits,
    results: ExtractionResults,
    files: VecDeque<PendingFile>,
    tasks: VecDeque<ExtractionTask>,
    attempts: usize,
    awaiting: Awaiting,
}

impl View for Orchestrator {
    type V = OrchestratorView;

    closed spec fn view(&self) -> OrchestratorView {
        OrchestratorView {
            limits: self.limits,
            results: self.results@,
            files: self.files@.map_values(|f: PendingFile| f@),
            tasks: self.tasks@.map_values(|t: ExtractionTask| t@),
            attempts: self.attempts as nat,
            awaiting: self.awaiting@,
        }
    }
}

impl Orchestrator {
    /// The state is one that a run can reach.
    pub open spec fn wf(&self) -> bool {
        sound(self@)
    }

    /// Files the entries for the matches of `file` and makes the
    /// extractions due for them the current tasks. On a key collision
    /// nothing is filed and the colliding key is returned.
    fn plan(&mut self, registry: &Registry, file: &PendingFile, found: &AnalysisResults) -> (r: Option<
        String,
    >)
        requires
            old(self).wf(),
        ensures
            handle(
                OrchestratorView { awaiting: AwaitingView::Scan(file@), ..old(self)@ },
                registry@,
                EventView::Scanned(found@),
            ) == (Handled {
                state: OrchestratorView { awaiting: AwaitingView::Nothing, ..final(self)@ },
                fault: match r {
                    Some(k) => Some(FaultView::KeyCollision(k@)),
                    None => None,
                },
            }),
            final(self)@.awaiting == old(self)@.awaiting,
    {
        reveal(handle);
        let ghost before = self@;
        let ghost held = self.results@;
        let ghost added = planned_results(registry@, file@.path, found@);
        let base: usize = self.results.len();
        let total: usize = found.len();
        let mut tasks: VecDeque<ExtractionTask> = VecDeque::new();
        let mut k: usize = 0;
        assert(held + added.subrange(0, 0) =~= held);
        while k < total
            invariant
                k <= total,
                total == found@.len(),
                base == held.len(),
                added == planned_results(registry@, file@.path, found@),
                self.results@ == held + added.subrange(0, k as int),
                first_collision(held, added, 0) == first_collision(held, added, k as int),
                tasks@.map_values(|t: ExtractionTask| t@) == planned_tasks(
                    registry@,
                    file@,
                    base as nat,
                    found@.subrange(0, k as int),
                ),
                self.limits == before.limits,
                self.files@ == old(self).files@,
                self.attempts == before.attempts,
                self.awaiting == old(self).awaiting,
                before == old(self)@,
                held == before.results,
            decreases total - k,
        {
            let entry = found.get(k);
            let slot: usize = self.results.len();
            let key = result_key(file.path.as_str(), entry.offset, entry.id.as_str());
            let extractor = find_extractor(registry, &entry.id);
            let name = match &extractor {
                Some(x) => x.clone(),
                None => String::new(),
            };
            let filed = ExtractionResult {
                size: None,
                success: false,
                extractor: name,
                output_directory: String::new(),
            };
            assert(FiledView { key: key@, result: filed@ } == added[k as int]);
            match self.results.insert(key, filed) {
                Err(AggregateError::KeyCollision(taken)) => {
                    self.results.truncate(base);
                    self.tasks = VecDeque::new();
                    proof {
                        reveal(handle);
                        assert(self.results@ =~= held);
                        assert(first_collision(held, added, k as int) == k);
                        assert(self.tasks@.map_values(|t: ExtractionTask| t@) =~= Seq::<TaskView>::empty());
                    }
                    return Some(taken);
                },
                Ok(()) => {},
            }
            proof {
                assert(self.results@ =~= held + added.subrange(0, k + 1));
                let longer = found@.subrange(0, k + 1);
                assert(longer.drop_last() =~= found@.subrange(0, k as int));
                assert(longer.last() == found@[k as int]);
            }
            match extractor {
                Some(x) => {
                    let directory = output_directory(
                        file.stem.as_str(),
                        entry.offset,
                        entry.id.as_str(),
                    );
                    tasks.push_back(
                        ExtractionTask {
                            source: file.path.clone(),
                            offset: entry.offset,
                            signature: entry.id.clone(),
                            extractor: x,
                            output_directory: directory,
                            depth: file.depth,
                            slot,
                        },
                    );
                },
                None => {},
            }
            k += 1;
        }
        proof {
            assert(found@.subrange(0, k as int) =~= found@);
            assert(added.subrange(0, k as int) =~= added);
        }
        self.tasks = tasks;
        None
    }

    /// Queues the files that an extraction at `depth - 1` wrote.
    fn queue_written(&mut self, paths: &Vec<String>, depth: usize)
        ensures
            final(self)@ == (OrchestratorView {
                files: old(self)@.files + written_files(paths@.map_values(|p: String| p@), depth),
                ..old(self)@
            }),
    {
        let ghost before = self@;
        let ghost names = paths@.map_values(|p: String| p@);
        let mut k: usize = 0;
        assert(before.files + written_files(names.subrange(0, 0), depth) =~= before.files);
        while k < paths.len()
            invariant
                k <= paths@.len(),
                names == paths@.map_values(|p: String| p@),
                self@ == (OrchestratorView {
                    files: before.files + written_files(names.subrange(0, k as int), depth),
                    ..before
                }),
            decreases paths@.len() - k,
        {
            let ghost sofar = self@;
            self.files.push_back(
                PendingFile { path: paths[k].clone(), stem: paths[k].clone(), depth },
            );
            proof {
                let file = FileView { path: names[k as int], stem: names[k as int], depth };
                assert(self@.files =~= sofar.files.push(file));
                assert(written_files(names.subrange(0, k + 1), depth) =~= written_files(
                    names.subrange(0, k as int),
                    depth,
                ).push(file));
                assert(self@.files =~= before.files + written_files(names.subrange(0, k + 1), depth));
            }
            k += 1;
        }
        assert(names.subrange(0, k as int) =~= names);
    }

    /// Takes in what came of the action under way.
    fn take_in(&mut self, registry: &Registry, event: Event) -> (fault: Option<OrchestrationError>)
        requires
            old(self).wf(),
        ensures
            handle(old(self)@, registry@, event@) == (Handled {
                state: final(self)@,
                fault: match fault {
                    Some(e) => Some(e@),
                    None => None,
                },
            }),
    {
        reveal(handle);
        let ghost before = self@;
        let mut current = Awaiting::Nothing;
        core::mem::swap(&mut self.awaiting, &mut current);
        match current {
            Awaiting::Extraction(task) => match event {
                Event::Extracted(outcome) => {
                    if outcome.success && task.depth < self.limits.max_depth {
                        self.queue_written(&outcome.written_paths, task.depth + 1);
                    }
                    let ghost queued = self@;
                    let settled_result = ExtractionResult {
                        size: outcome.bytes_consumed,
                        success: outcome.success,
                        extractor: task.extractor,
                        output_directory: task.output_directory,
                    };
                    self.results.settle(task.slot, settled_result);
                    assert(self@.files == queued.files);
                    None
                },
                Event::DirectoryFailed => {
                    let failed = ExtractionResult {
                        size: None,
                        success: false,
                        extractor: task.extractor,
                        output_directory: task.output_directory,
                    };
                    self.results.settle(task.slot, failed);
                    None
                },
                _ => {
                    self.awaiting = Awaiting::Extraction(task);
                    assert(self@ == before);
                    Some(OrchestrationError::OutOfTurn)
                },
            },
            Awaiting::Scan(file) => match event {
                Event::Scanned(found) => match self.plan(registry, &file, &found) {
                    Some(key) => Some(OrchestrationError::KeyCollision(key)),
                    None => None,
                },
                Event::Unreadable => {
                    self.tasks = VecDeque::new();
                    assert(self@.tasks =~= Seq::<TaskView>::empty());
                    None
                },
                _ => {
                    self.awaiting = Awaiting::Scan(file);
                    assert(self@ == before);
                    Some(OrchestrationError::OutOfTurn)
                },
            },
            Awaiting::Nothing => {
                assert(self@ == before);
                Some(OrchestrationError::OutOfTurn)
            },
        }
    }

    /// Chooses the next action.
    fn choose_next(&mut self) -> (step: Step)
        ensures
            (final(self)@, step@) == decide(old(self)@),
    {
        reveal(decide);
        let ghost before = self@;
        if self.attempts < self.limits.max_attempts {
            match self.tasks.pop_front() {
                Some(task) => {
                    self.attempts = self.attempts + 1;
                    let handed = task.duplicate();
                    self.awaiting = Awaiting::Extraction(task);
                    assert(self@.tasks =~= before.tasks.drop_first());
                    return Step::Extract(handed);
                },
                None => {},
            }
            match self.files.pop_front() {
                Some(file) => {
                    let handed = file.duplicate();
                    self.awaiting = Awaiting::Scan(file);
                    assert(self@.files =~= before.files.drop_first());
                    assert(self@.tasks =~= Seq::<TaskView>::empty());
                    return Step::Scan(handed);
                },
                None => {},
            }
        }
        assert(self@.tasks =~= before.tasks);
        assert(self@.files =~= before.files);
        Step::Finished
    }

    /// Opens a run on the file at `source`, whose scan gave `found`: files
    /// one entry for each match and says which action is due first. The
    /// output directories of the file's matches lie under `output_root` and
    /// begin with the file's base name. Opening a run cannot fail.
    pub fn start(
        limits: Limits,
        registry: &Registry,
        source: &str,
        output_root: &str,
        found: &AnalysisResults,
    ) -> (r: (Orchestrator, Step))
        ensures
            r.0.wf(),
            (r.0@, r.1@) == after(
                opening(limits, source@, output_root@),
                registry@,
                EventView::Scanned(found@),
            ),
            r.1 is Extract ==> r.0@.awaiting is Extraction,
            r.1 is Scan ==> r.0@.awaiting is Scan,
            !(r.1 is Aborted),
            r.0@.results == planned_results(registry@, source@, found@),
    {
        found.invariants();
        let file = PendingFile {
            path: source.to_owned(),
            stem: stem_under(output_root, source),
            depth: 0,
        };
        let mut orchestrator = Orchestrator {
            limits,
            results: ExtractionResults::new(),
            files: VecDeque::new(),
            tasks: VecDeque::new(),
            attempts: 0,
            awaiting: Awaiting::Nothing,
        };
        proof {
            assert(orchestrator@.files =~= Seq::<FileView>::empty());
            assert(orchestrator@.tasks =~= Seq::<TaskView>::empty());
            assert((OrchestratorView { awaiting: AwaitingView::Scan(file@), ..orchestrator@ })
                == opening(limits, source@, output_root@));
            lemma_step(opening(limits, source@, output_root@), registry@, EventView::Scanned(found@));
            lemma_opening_files_all(limits, registry@, source@, output_root@, found@);
        }
        match orchestrator.plan(registry, &file, found) {
            Some(key) => (orchestrator, Step::Aborted(OrchestrationError::KeyCollision(key))),
            None => {
                let step = orchestrator.choose_next();
                (orchestrator, step)
            },
        }
    }

    /// Takes in what came of the action that was due and says which action
    /// is due next.
    ///
    /// The run stays within its limits, and each action issued lowers the
    /// effort that is left: see [`lemma_step`].
    pub fn advance(&mut self, registry: &Registry, event: Event) -> (step: Step)
        requires
            old(self).wf(),
        ensures
            final(self).wf(),
            (final(self)@, step@) == after(old(self)@, registry@, event@),
            (step is Extract || step is Scan) ==> less(effort(final(self)@), effort(old(self)@)),
            final(self)@.attempts <= final(self)@.limits.max_attempts,
            step is Extract ==> final(self)@.awaiting is Extraction,
            step is Scan ==> final(self)@.awaiting is Scan,
            (old(self)@.awaiting is Extraction && (event@ is Extracted || event@ is DirectoryFailed))
                || (old(self)@.awaiting is Scan && (event@ is Scanned || event@ is Unreadable))
                ==> !(step@ == StepView::Aborted(FaultView::OutOfTurn)),
    {
        proof {
            lemma_step(self@, registry@, event@);
        }
        match self.take_in(registry, event) {
            Some(e) => Step::Aborted(e),
            None => self.choose_next(),
        }
    }

    /// The results as they stand.
    pub fn results(&self) -> (r: &ExtractionResults)
        ensures
            r@ == self@.results,
    {
        &self.results
    }

    /// Extractions attempted so far.
    pub fn attempts(&self) -> (n: usize)
        ensures
            n == self@.attempts,
    {
        self.attempts
    }

    /// Ends the run and hands out the results as they stand.
    pub fn into_results(self) -> (r: ExtractionResults)
        ensures
            r@ == self@.results,
    {
        self.results
    }
}

} // verus!
