use binwalk::aggregator::{AggregateError, ExtractionResult, ExtractionResults};
use binwalk::confidence::Confidence;
use binwalk::filter::Filter;
use binwalk::orchestrator::{
    Event, ExtractionOutcome, Limits, OrchestrationError, Orchestrator, Step,
};
use binwalk::pattern::Pattern;
use binwalk::resolver::AnalysisResults;
use binwalk::scanner::{scan, NoValidators, Validators, Verdict};
use binwalk::session::{configure, Host, PathKind, Session};
use binwalk::signature::{Registry, SignatureRule};

fn rule(id: &str, literal: &[u8], validator: Option<&str>, extractor: Option<&str>) -> SignatureRule {
    SignatureRule {
        id: id.to_string(),
        name: id.to_uppercase(),
        description: format!("{} data", id),
        pattern: Pattern::literal(literal).unwrap(),
        confidence: Confidence::Medium,
        validator: validator.map(|v| v.to_string()),
        extractor: extractor.map(|v| v.to_string()),
    }
}

fn session_of(rules: Vec<SignatureRule>, limits: Limits) -> Session {
    let mut registry = Registry::new();
    for r in rules {
        registry.register(r).unwrap();
    }
    let mut configuration = configure(
        Some("/data/fw.bin".to_string()),
        PathKind::File,
        Some("out".to_string()),
        PathKind::Missing,
        None,
        None,
        false,
    )
    .unwrap();
    configuration.limits = limits;
    Session { registry, configuration }
}

struct SizeOf(usize);

impl Validators for SizeOf {
    fn validate(&self, _validator: &String, _buffer: &[u8], _offset: usize) -> Verdict {
        Verdict::Accept { confidence: Confidence::High, size: Some(self.0) }
    }
}

/// A file system and a set of extractors, held in memory.
struct MemoryHost {
    directories: Vec<String>,
    files: Vec<(String, Vec<u8>)>,
    refuse_directories: bool,
    stop_after: Option<usize>,
    runs: usize,
    /// Bytes that `copy` skips behind the offset, and bytes that it copies.
    skip: usize,
    take: usize,
}

impl MemoryHost {
    fn new() -> MemoryHost {
        MemoryHost {
            directories: Vec::new(),
            files: Vec::new(),
            refuse_directories: false,
            stop_after: None,
            runs: 0,
            skip: 0,
            take: 0,
        }
    }

    fn file(&self, path: &str) -> Option<&Vec<u8>> {
        self.files.iter().find(|(p, _)| p == path).map(|(_, d)| d)
    }
}

impl Host for MemoryHost {
    fn cancelled(&mut self) -> bool {
        match self.stop_after {
            Some(n) => self.runs >= n,
            None => false,
        }
    }

    fn create_directory(&mut self, path: &String) -> bool {
        if self.refuse_directories {
            return false;
        }
        self.directories.push(path.clone());
        true
    }

    fn run_extractor(
        &mut self,
        extractor: &String,
        buffer: &[u8],
        offset: usize,
        output_directory: &String,
    ) -> ExtractionOutcome {
        self.runs += 1;
        let path = format!("{}/file.bin", output_directory);
        match extractor.as_str() {
            "copy" => {
                let from = offset + self.skip;
                let data = buffer[from..from + self.take].to_vec();
                self.files.push((path.clone(), data));
                ExtractionOutcome {
                    success: true,
                    bytes_consumed: Some(self.skip + self.take),
                    written_paths: vec![path],
                }
            },
            "echo" => {
                self.files.push((path.clone(), buffer.to_vec()));
                ExtractionOutcome { success: true, bytes_consumed: None, written_paths: vec![path] }
            },
            "twice" => {
                self.files.push((path.clone(), buffer.to_vec()));
                ExtractionOutcome {
                    success: true,
                    bytes_consumed: None,
                    written_paths: vec![path.clone(), path],
                }
            },
            _ => ExtractionOutcome { success: false, bytes_consumed: None, written_paths: Vec::new() },
        }
    }

    fn read_file(&mut self, path: &String) -> Option<Vec<u8>> {
        self.file(path).cloned()
    }
}

fn example_buffer() -> Vec<u8> {
    let mut buffer = vec![0u8; 8];
    buffer.extend_from_slice(b"GZIP_MAGIC");
    buffer.extend_from_slice(&[7u8; 100]);
    buffer
}

#[test]
fn example_scenario_extracts_one_hundred_bytes() {
    let session = session_of(
        vec![rule("gzip", b"GZIP_MAGIC", Some("gzip"), Some("copy"))],
        Limits { max_depth: 8, max_attempts: 64 },
    );
    let buffer = example_buffer();
    let found = session.scan(&buffer, &SizeOf(100));
    assert_eq!(found.len(), 1);
    assert_eq!(found.get(0).offset, 8);
    assert_eq!(found.get(0).size, 100);
    let mut host = MemoryHost::new();
    host.skip = 10;
    host.take = found.get(0).size;
    let results = session.extract(&buffer, "/data/fw.bin", &found, &SizeOf(100), &mut host).unwrap();
    assert_eq!(results.len(), 1);
    let filed = results.entry(0);
    assert_eq!(filed.key, "/data/fw.bin:8:gzip");
    assert_eq!(
        filed.result,
        ExtractionResult {
            size: Some(110),
            success: true,
            extractor: "copy".to_string(),
            output_directory: "out/fw.bin_8_gzip".to_string(),
        }
    );
    assert_eq!(host.directories, vec!["out/fw.bin_8_gzip".to_string()]);
    assert_eq!(host.file("out/fw.bin_8_gzip/file.bin").unwrap().len(), 100);
    assert_eq!(host.file("out/fw.bin_8_gzip/file.bin").unwrap(), &vec![7u8; 100]);
}

#[test]
fn one_failing_and_one_working_extractor_give_one_failure_and_one_success() {
    let session = session_of(
        vec![
            rule("bad", b"BAD!", None, Some("broken")),
            rule("good", b"GOOD", None, Some("copy")),
            rule("bare", b"BARE", None, None),
        ],
        Limits { max_depth: 8, max_attempts: 64 },
    );
    let buffer = b"..BAD!....GOOD0123456789BARE".to_vec();
    let found = session.scan(&buffer, &NoValidators);
    assert_eq!(found.len(), 3);
    let mut host = MemoryHost::new();
    host.skip = 4;
    host.take = 10;
    let results = session.extract(&buffer, "/data/fw.bin", &found, &NoValidators, &mut host).unwrap();
    assert_eq!(results.len(), 3);
    let bad = results.get(&"/data/fw.bin:2:bad".to_string()).unwrap();
    assert_eq!(
        bad,
        &ExtractionResult {
            size: None,
            success: false,
            extractor: "broken".to_string(),
            output_directory: "out/fw.bin_2_bad".to_string(),
        }
    );
    let good = results.get(&"/data/fw.bin:10:good".to_string()).unwrap();
    assert!(good.success);
    assert_eq!(good.size, Some(14));
    assert_eq!(good.output_directory, "out/fw.bin_10_good");
    assert_eq!(host.file("out/fw.bin_10_good/file.bin").unwrap(), &b"0123456789".to_vec());
    let bare = results.get(&"/data/fw.bin:24:bare".to_string()).unwrap();
    assert_eq!(
        bare,
        &ExtractionResult {
            size: None,
            success: false,
            extractor: String::new(),
            output_directory: String::new(),
        }
    );
    assert_eq!(results.entries().iter().filter(|f| f.result.success).count(), 1);
    assert!(results.get(&"/data/fw.bin:3:bad".to_string()).is_none());
    assert_eq!(results.position(&"/data/fw.bin:10:good".to_string()), Some(1));
}

#[test]
fn self_referential_container_stops_at_the_depth_limit() {
    let session = session_of(
        vec![rule("loop", b"LOOP", None, Some("echo"))],
        Limits { max_depth: 3, max_attempts: 1000 },
    );
    let buffer = b"LOOP".to_vec();
    let found = session.scan(&buffer, &NoValidators);
    let mut host = MemoryHost::new();
    let results = session.extract(&buffer, "/data/fw.bin", &found, &NoValidators, &mut host).unwrap();
    assert_eq!(host.runs, 4);
    assert_eq!(results.len(), 4);
    let keys: Vec<&str> = results.entries().iter().map(|f| f.key.as_str()).collect();
    assert_eq!(
        keys,
        vec![
            "/data/fw.bin:0:loop",
            "out/fw.bin_0_loop/file.bin:0:loop",
            "out/fw.bin_0_loop/file.bin_0_loop/file.bin:0:loop",
            "out/fw.bin_0_loop/file.bin_0_loop/file.bin_0_loop/file.bin:0:loop",
        ]
    );
    assert!(results.entries().iter().all(|f| f.result.success));
}

#[test]
fn self_referential_container_stops_at_the_attempt_limit() {
    let session = session_of(
        vec![rule("loop", b"LOOP", None, Some("echo"))],
        Limits { max_depth: usize::MAX, max_attempts: 25 },
    );
    let buffer = b"LOOP LOOP".to_vec();
    let found = session.scan(&buffer, &NoValidators);
    let mut host = MemoryHost::new();
    let results = session.extract(&buffer, "/data/fw.bin", &found, &NoValidators, &mut host).unwrap();
    assert_eq!(host.runs, 25);
    assert_eq!(results.entries().iter().filter(|f| f.result.success).count(), 25);
    for f in results.entries().iter().filter(|f| !f.result.success) {
        assert_eq!(f.result.output_directory, "");
        assert_eq!(f.result.extractor, "echo");
    }
}

#[test]
fn no_recursion_at_depth_limit_zero_and_no_attempt_at_attempt_limit_zero() {
    let buffer = b"LOOP".to_vec();
    let session = session_of(
        vec![rule("loop", b"LOOP", None, Some("echo"))],
        Limits { max_depth: 0, max_attempts: 10 },
    );
    let found = session.scan(&buffer, &NoValidators);
    let mut host = MemoryHost::new();
    let results = session.extract(&buffer, "/data/fw.bin", &found, &NoValidators, &mut host).unwrap();
    assert_eq!((host.runs, results.len()), (1, 1));
    let session = session_of(
        vec![rule("loop", b"LOOP", None, Some("echo"))],
        Limits { max_depth: 5, max_attempts: 0 },
    );
    let mut host = MemoryHost::new();
    let results = session.extract(&buffer, "/data/fw.bin", &found, &NoValidators, &mut host).unwrap();
    assert_eq!((host.runs, results.len()), (0, 1));
    assert!(!results.entry(0).result.success);
}

#[test]
fn directory_failure_is_recorded_for_each_match_and_the_run_goes_on() {
    let session = session_of(
        vec![rule("a", b"AA", None, Some("copy")), rule("b", b"BB", None, Some("copy"))],
        Limits { max_depth: 8, max_attempts: 64 },
    );
    let buffer = b"AA..BB..".to_vec();
    let found = session.scan(&buffer, &NoValidators);
    let mut host = MemoryHost::new();
    host.refuse_directories = true;
    let results = session.extract(&buffer, "/data/fw.bin", &found, &NoValidators, &mut host).unwrap();
    assert_eq!(host.runs, 0);
    assert_eq!(results.len(), 2);
    for f in results.entries() {
        assert!(!f.result.success);
        assert_eq!(f.result.size, None);
        assert_eq!(f.result.extractor, "copy");
    }
    assert_eq!(results.entry(0).result.output_directory, "out/fw.bin_0_a");
    assert_eq!(results.entry(1).result.output_directory, "out/fw.bin_4_b");
}

#[test]
fn cancellation_returns_what_was_produced() {
    let session = session_of(
        vec![rule("loop", b"LOOP", None, Some("echo"))],
        Limits { max_depth: 50, max_attempts: 1000 },
    );
    let buffer = b"LOOP".to_vec();
    let found = session.scan(&buffer, &NoValidators);
    let mut host = MemoryHost::new();
    host.stop_after = Some(2);
    let results = session.extract(&buffer, "/data/fw.bin", &found, &NoValidators, &mut host).unwrap();
    assert_eq!(host.runs, 2);
    assert_eq!(results.len(), 3);
    assert_eq!(results.entries().iter().filter(|f| f.result.success).count(), 2);
}

#[test]
fn a_path_written_twice_is_a_key_collision() {
    let session = session_of(
        vec![rule("dup", b"DUP", None, Some("twice"))],
        Limits { max_depth: 1, max_attempts: 10 },
    );
    let buffer = b"DUP".to_vec();
    let found = session.scan(&buffer, &NoValidators);
    let mut host = MemoryHost::new();
    let outcome = session.extract(&buffer, "/data/fw.bin", &found, &NoValidators, &mut host);
    assert_eq!(
        outcome.unwrap_err(),
        OrchestrationError::KeyCollision("out/fw.bin_0_dup/file.bin:0:dup".to_string())
    );
}

#[test]
fn orchestrator_issues_tasks_in_order_and_refuses_events_out_of_turn() {
    let session = session_of(
        vec![rule("a", b"AA", None, Some("copy")), rule("b", b"BB", None, Some("other"))],
        Limits { max_depth: 2, max_attempts: 10 },
    );
    let buffer = b"BB.AA".to_vec();
    let found = session.scan(&buffer, &NoValidators);
    let (mut orchestrator, step) = Orchestrator::start(
        session.configuration.limits,
        &session.registry,
        "dir/fw.bin",
        "out",
        &found,
    );
    assert_eq!(orchestrator.results().len(), 2);
    assert_eq!(orchestrator.attempts(), 1);
    let first = match step {
        Step::Extract(task) => task,
        other => panic!("unexpected step {:?}", other),
    };
    assert_eq!(first.source, "dir/fw.bin");
    assert_eq!(first.offset, 0);
    assert_eq!(first.signature, "b");
    assert_eq!(first.extractor, "other");
    assert_eq!(first.output_directory, "out/fw.bin_0_b");
    assert_eq!((first.depth, first.slot), (0, 0));
    assert_eq!(
        orchestrator.advance(&session.registry, Event::Unreadable),
        Step::Aborted(OrchestrationError::OutOfTurn)
    );
    assert_eq!(
        orchestrator.advance(&session.registry, Event::Scanned(AnalysisResults::empty())),
        Step::Aborted(OrchestrationError::OutOfTurn)
    );
    let second = orchestrator.advance(
        &session.registry,
        Event::Extracted(ExtractionOutcome {
            success: true,
            bytes_consumed: Some(3),
            written_paths: vec!["out/fw.bin_0_b/x".to_string(), "out/fw.bin_0_b/y".to_string()],
        }),
    );
    let second = match second {
        Step::Extract(task) => task,
        other => panic!("unexpected step {:?}", other),
    };
    assert_eq!((second.offset, second.slot, second.signature.as_str()), (3, 1, "a"));
    assert_eq!(orchestrator.results().entry(0).result.size, Some(3));
    let third = orchestrator.advance(&session.registry, Event::DirectoryFailed);
    match third {
        Step::Scan(file) => {
            assert_eq!(file.path, "out/fw.bin_0_b/x");
            assert_eq!(file.stem, "out/fw.bin_0_b/x");
            assert_eq!(file.depth, 1);
        },
        other => panic!("unexpected step {:?}", other),
    }
    assert_eq!(
        orchestrator.advance(&session.registry, Event::DirectoryFailed),
        Step::Aborted(OrchestrationError::OutOfTurn)
    );
    let fourth = orchestrator.advance(&session.registry, Event::Unreadable);
    match fourth {
        Step::Scan(file) => assert_eq!(file.path, "out/fw.bin_0_b/y"),
        other => panic!("unexpected step {:?}", other),
    }
    let inner = scan(&session.registry, &Filter::everything(), b"..AA", false, &NoValidators);
    let fifth = orchestrator.advance(&session.registry, Event::Scanned(inner));
    match fifth {
        Step::Extract(task) => {
            assert_eq!(task.source, "out/fw.bin_0_b/y");
            assert_eq!(task.output_directory, "out/fw.bin_0_b/y_2_a");
            assert_eq!((task.depth, task.slot, task.offset), (1, 2, 2));
        },
        other => panic!("unexpected step {:?}", other),
    }
    let last = orchestrator.advance(
        &session.registry,
        Event::Extracted(ExtractionOutcome {
            success: false,
            bytes_consumed: None,
            written_paths: vec!["ignored".to_string()],
        }),
    );
    assert_eq!(last, Step::Finished);
    assert_eq!(orchestrator.attempts(), 3);
    assert_eq!(
        orchestrator.advance(&session.registry, Event::Unreadable),
        Step::Aborted(OrchestrationError::OutOfTurn)
    );
    let results = orchestrator.into_results();
    let keys: Vec<&str> = results.entries().iter().map(|f| f.key.as_str()).collect();
    assert_eq!(keys, vec!["dir/fw.bin:0:b", "dir/fw.bin:3:a", "out/fw.bin_0_b/y:2:a"]);
}

#[test]
fn aggregator_refuses_a_second_result_for_a_key() {
    let result = |ok: bool| ExtractionResult {
        size: Some(1),
        success: ok,
        extractor: "x".to_string(),
        output_directory: "d".to_string(),
    };
    let mut results = ExtractionResults::new();
    assert_eq!(results.insert("k1".to_string(), result(true)), Ok(()));
    assert_eq!(results.insert("k2".to_string(), result(false)), Ok(()));
    assert_eq!(
        results.insert("k1".to_string(), result(false)),
        Err(AggregateError::KeyCollision("k1".to_string()))
    );
    assert_eq!(results.len(), 2);
    assert!(results.get(&"k1".to_string()).unwrap().success);
    let mut other = ExtractionResults::new();
    other.insert("k3".to_string(), result(true)).unwrap();
    other.insert("k2".to_string(), result(true)).unwrap();
    assert_eq!(results.merge(&other), Err(AggregateError::KeyCollision("k2".to_string())));
    assert_eq!(results.len(), 2);
    let mut third = ExtractionResults::new();
    third.insert("k3".to_string(), result(true)).unwrap();
    third.insert("k4".to_string(), result(true)).unwrap();
    assert_eq!(results.merge(&third), Ok(()));
    let keys: Vec<&str> = results.entries().iter().map(|f| f.key.as_str()).collect();
    assert_eq!(keys, vec!["k1", "k2", "k3", "k4"]);
}

#[test]
fn scan_and_extract_rows_render_the_whole_run_as_text() {
    let mut registry = Registry::new();
    registry.register(rule("gzip", b"GZIP_MAGIC", Some("gzip"), Some("copy"))).unwrap();
    registry.register(rule("bare", b"\0\0\0\0\0\0\0\0", None, None)).unwrap();
    let session = Session::configure(
        registry,
        Some("/data/fw.bin".to_string()),
        PathKind::File,
        None,
        PathKind::Missing,
        None,
        None,
        true,
    )
    .unwrap();
    let buffer = example_buffer();
    let rows = session.scan_rows(&buffer, &SizeOf(100));
    let texts: Vec<Vec<(&str, &str)>> =
        rows.iter().map(|r| r.iter().map(|(n, v)| (n.as_str(), v.as_str())).collect()).collect();
    assert_eq!(
        texts,
        vec![
            vec![
                ("description", "bare data"),
                ("id", "bare"),
                ("name", "BARE"),
                ("confidence", "medium"),
                ("offset", "0"),
                ("size", "0"),
            ],
            vec![
                ("description", "gzip data"),
                ("id", "gzip"),
                ("name", "GZIP"),
                ("confidence", "high"),
                ("offset", "8"),
                ("size", "100"),
            ],
        ]
    );
    let mut host = MemoryHost::new();
    host.skip = 10;
    host.take = 100;
    let rows = session.extract_rows(&buffer, "/data/fw.bin", &SizeOf(100), &mut host).unwrap();
    let texts: Vec<Vec<(&str, &str)>> =
        rows.iter().map(|r| r.iter().map(|(n, v)| (n.as_str(), v.as_str())).collect()).collect();
    assert_eq!(
        texts,
        vec![
            vec![
                ("key", "/data/fw.bin:0:bare"),
                ("size", "Unknown"),
                ("success", "false"),
                ("extractor", ""),
                ("output_directory", ""),
            ],
            vec![
                ("key", "/data/fw.bin:8:gzip"),
                ("size", "110"),
                ("success", "true"),
                ("extractor", "copy"),
                ("output_directory", "extractions/fw.bin_8_gzip"),
            ],
        ]
    );
    assert_eq!(host.file("extractions/fw.bin_8_gzip/file.bin").unwrap().len(), 100);
}

#[test]
fn a_session_is_not_made_from_settings_that_are_refused() {
    let outcome = Session::configure(
        Registry::new(),
        Some("/data/fw.bin".to_string()),
        PathKind::Missing,
        None,
        PathKind::Missing,
        None,
        None,
        false,
    );
    assert_eq!(outcome.unwrap_err(), binwalk::session::ConfigError::TargetMissing);
}
