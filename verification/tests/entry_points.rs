use binwalk::confidence::Confidence;
use binwalk::orchestrator::{ExtractionOutcome, OrchestrationError};
use binwalk::pattern::Pattern;
use binwalk::python::{extract, extract_report, raise, scan_file, scan_file_report, Failure};
use binwalk::scanner::NoValidators;
use binwalk::session::{ConfigError, Host, PathKind};
use binwalk::signature::{Registry, SignatureRule};

fn registry() -> Registry {
    let mut registry = Registry::new();
    for (id, magic, extractor) in [("zip", &b"PK"[..], Some("keep")), ("gz", &b"GZ"[..], None)] {
        registry
            .register(SignatureRule {
                id: id.to_string(),
                name: id.to_uppercase(),
                description: format!("{} archive", id),
                pattern: Pattern::literal(magic).unwrap(),
                confidence: Confidence::Medium,
                validator: None,
                extractor: extractor.map(|e| e.to_string()),
            })
            .unwrap();
    }
    registry
}

/// Writes nothing; `keep` reports one written path as often as `copies` says.
struct Recorder {
    directories: Vec<String>,
    copies: usize,
}

impl Host for Recorder {
    fn cancelled(&mut self) -> bool {
        false
    }

    fn create_directory(&mut self, path: &String) -> bool {
        self.directories.push(path.clone());
        true
    }

    fn run_extractor(
        &mut self,
        _extractor: &String,
        buffer: &[u8],
        offset: usize,
        output_directory: &String,
    ) -> ExtractionOutcome {
        ExtractionOutcome {
            success: true,
            bytes_consumed: Some(buffer.len() - offset),
            written_paths: vec![format!("{}/inner", output_directory); self.copies],
        }
    }

    fn read_file(&mut self, path: &String) -> Option<Vec<u8>> {
        if path.ends_with("/inner") {
            Some(b"PK".to_vec())
        } else {
            None
        }
    }
}

fn texts(rows: &Vec<Vec<(String, String)>>) -> Vec<Vec<(&str, &str)>> {
    rows.iter().map(|r| r.iter().map(|(n, v)| (n.as_str(), v.as_str())).collect()).collect()
}

fn run(
    target_kind: PathKind,
    output_path: Option<&str>,
    output_kind: PathKind,
    read: Result<Vec<u8>, String>,
    copies: usize,
) -> Result<Vec<Vec<(String, String)>>, Failure> {
    let mut host = Recorder { directories: Vec::new(), copies };
    extract_report(
        registry(),
        "dir/fw.bin".to_string(),
        target_kind,
        output_path.map(|p| p.to_string()),
        output_kind,
        None,
        Some(vec!["gz".to_string()]),
        None,
        read,
        &NoValidators,
        &mut host,
    )
}

#[test]
fn scan_file_report_renders_matches_or_hands_on_the_read_error() {
    let rows = scan_file_report(&registry(), Ok(b"..GZ.PK".to_vec()), &NoValidators).unwrap();
    assert_eq!(
        texts(&rows),
        vec![
            vec![
                ("description", "gz archive"),
                ("id", "gz"),
                ("name", "GZ"),
                ("confidence", "medium"),
                ("offset", "2"),
                ("size", "0"),
            ],
            vec![
                ("description", "zip archive"),
                ("id", "zip"),
                ("name", "ZIP"),
                ("confidence", "medium"),
                ("offset", "5"),
                ("size", "0"),
            ],
        ]
    );
    assert_eq!(
        scan_file_report(&registry(), Err("No such file".to_string()), &NoValidators),
        Err(Failure::Unreadable("No such file".to_string()))
    );
}

#[test]
fn extract_report_fails_on_missing_input_then_settings_then_reading() {
    let unread = || Err("Permission denied".to_string());
    assert_eq!(
        run(PathKind::Missing, Some(""), PathKind::File, unread(), 1),
        Err(Failure::MissingInput)
    );
    assert_eq!(
        run(PathKind::Directory, Some("out"), PathKind::Missing, unread(), 1),
        Err(Failure::Config(ConfigError::TargetNotAFile))
    );
    assert_eq!(
        run(PathKind::File, Some("out"), PathKind::File, unread(), 1),
        Err(Failure::Config(ConfigError::OutputInvalid))
    );
    assert_eq!(
        run(PathKind::File, Some("out"), PathKind::Directory, unread(), 1),
        Err(Failure::Unreadable("Permission denied".to_string()))
    );
}

#[test]
fn extract_report_renders_the_results_of_the_whole_run() {
    let rows = run(PathKind::File, None, PathKind::Missing, Ok(b"GZ PK..".to_vec()), 1).unwrap();
    assert_eq!(
        texts(&rows)[..2].to_vec(),
        vec![
            vec![
                ("key", "dir/fw.bin:3:zip"),
                ("size", "4"),
                ("success", "true"),
                ("extractor", "keep"),
                ("output_directory", "extractions/fw.bin_3_zip"),
            ],
            vec![
                ("key", "extractions/fw.bin_3_zip/inner:0:zip"),
                ("size", "2"),
                ("success", "true"),
                ("extractor", "keep"),
                ("output_directory", "extractions/fw.bin_3_zip/inner_0_zip"),
            ],
        ]
    );
    assert_eq!(rows.len(), 9);
    assert_eq!(rows[8][0].1, format!("extractions/fw.bin_3_zip{}/inner:0:zip", "/inner_0_zip".repeat(7)));
}

#[test]
fn extract_report_names_the_key_that_is_claimed_twice() {
    let outcome = run(PathKind::File, Some("o"), PathKind::Missing, Ok(b"PK".to_vec()), 2);
    let failure = outcome.unwrap_err();
    assert_eq!(
        failure,
        Failure::Inconsistent(OrchestrationError::KeyCollision("o/fw.bin_0_zip/inner:0:zip".to_string()))
    );
    assert_eq!(failure.message(), "Two results claim the key o/fw.bin_0_zip/inner:0:zip");
}

#[test]
fn failures_have_their_texts() {
    assert_eq!(Failure::MissingInput.message(), "Input file does not exist");
    assert_eq!(
        Failure::Config(ConfigError::OutputInvalid).message(),
        "Output path is not a usable directory"
    );
    assert_eq!(Failure::Unreadable("disk on fire".to_string()).message(), "disk on fire");
    assert_eq!(
        Failure::Inconsistent(OrchestrationError::OutOfTurn).message(),
        "An event came out of turn"
    );
}

#[test]
fn a_failure_is_raised_and_a_success_passes() {
    assert_eq!(raise(Ok::<u8, Failure>(7)).ok(), Some(7));
    assert!(raise(Err::<u8, Failure>(Failure::MissingInput)).is_err());
    assert!(scan_file(&registry(), Err("gone".to_string()), &NoValidators).is_err());
    let rows = scan_file(&registry(), Ok(b"PK".to_vec()), &NoValidators).ok().unwrap();
    assert_eq!(rows.len(), 1);
    let mut host = Recorder { directories: Vec::new(), copies: 0 };
    let rows = extract(
        registry(),
        "fw.bin".to_string(),
        PathKind::File,
        None,
        PathKind::Missing,
        Some(vec!["zip".to_string()]),
        None,
        Some(true),
        Ok(b"PKPK GZ".to_vec()),
        &NoValidators,
        &mut host,
    )
    .ok()
    .unwrap();
    assert_eq!(rows.len(), 2);
    assert_eq!(host.directories, vec!["extractions/fw.bin_0_zip", "extractions/fw.bin_2_zip"]);
    let mut host = Recorder { directories: Vec::new(), copies: 0 };
    assert!(extract(
        registry(),
        "fw.bin".to_string(),
        PathKind::Missing,
        None,
        PathKind::Missing,
        None,
        None,
        None,
        Ok(Vec::new()),
        &NoValidators,
        &mut host,
    )
    .is_err());
}
