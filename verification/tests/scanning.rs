use binwalk::confidence::Confidence;
use binwalk::filter::Filter;
use binwalk::pattern::{Pattern, PatternByte};
use binwalk::resolver::{resolve, sort_matches};
use binwalk::scanner::{
    find_hits, judge, scan, scan_until, scan_with_verdicts, Hit, NeverStop, NoValidators, ScanMatch,
    StopSignal, Validators, Verdict,
};
use binwalk::signature::{Registry, RegistryError, SignatureRule};

fn rule(id: &str, literal: &[u8], confidence: Confidence, validator: Option<&str>) -> SignatureRule {
    SignatureRule {
        id: id.to_string(),
        name: id.to_uppercase(),
        description: format!("{} data", id),
        pattern: Pattern::literal(literal).unwrap(),
        confidence,
        validator: validator.map(|v| v.to_string()),
        extractor: None,
    }
}

fn registry_of(rules: Vec<SignatureRule>) -> Registry {
    let mut registry = Registry::new();
    for r in rules {
        registry.register(r).unwrap();
    }
    registry
}

struct SizeOf(usize);

impl Validators for SizeOf {
    fn validate(&self, _validator: &String, _buffer: &[u8], _offset: usize) -> Verdict {
        Verdict::Accept { confidence: Confidence::High, size: Some(self.0) }
    }
}

/// Accepts a hit only where the byte behind the two-byte magic is even.
struct EvenFollower;

impl Validators for EvenFollower {
    fn validate(&self, _validator: &String, buffer: &[u8], offset: usize) -> Verdict {
        match buffer.get(offset + 2) {
            Some(b) if b % 2 == 0 => Verdict::Accept { confidence: Confidence::Low, size: None },
            _ => Verdict::Reject,
        }
    }
}

fn example_buffer() -> Vec<u8> {
    let mut buffer = vec![0u8; 8];
    buffer.extend_from_slice(b"GZIP_MAGIC");
    buffer.extend_from_slice(&[7u8; 100]);
    buffer
}

#[test]
fn single_validated_match_is_reported_with_its_size() {
    let registry = registry_of(vec![rule("gzip", b"GZIP_MAGIC", Confidence::Medium, Some("gzip"))]);
    let results = scan(&registry, &Filter::everything(), &example_buffer(), false, &SizeOf(100));
    assert_eq!(results.len(), 1);
    let entry = results.get(0);
    assert_eq!(entry.offset, 8);
    assert_eq!(entry.size, 100);
    assert_eq!(entry.id, "gzip");
    assert_eq!(entry.name, "GZIP");
    assert_eq!(entry.description, "gzip data");
    assert_eq!(entry.confidence, Confidence::High);
    assert_eq!(entry.rule, 0);
}

#[test]
fn empty_buffer_yields_no_matches() {
    let registry = registry_of(vec![rule("gzip", b"GZIP_MAGIC", Confidence::Medium, None)]);
    assert_eq!(scan(&registry, &Filter::everything(), &[], true, &NoValidators).len(), 0);
    assert_eq!(scan(&registry, &Filter::everything(), &[], false, &NoValidators).len(), 0);
}

#[test]
fn buffer_shorter_than_pattern_yields_no_matches() {
    let registry = registry_of(vec![rule("gzip", b"GZIP_MAGIC", Confidence::Medium, None)]);
    assert_eq!(scan(&registry, &Filter::everything(), b"GZIP_MAGI", false, &NoValidators).len(), 0);
}

#[test]
fn empty_pattern_is_refused() {
    assert!(Pattern::literal(b"").is_none());
    assert!(Pattern::new(Vec::new()).is_none());
    assert_eq!(Pattern::literal(b"ab").unwrap().len(), 2);
}

#[test]
fn wildcard_positions_accept_any_byte() {
    let pattern = Pattern::new(vec![
        PatternByte::Exact(b'a'),
        PatternByte::Any,
        PatternByte::Exact(b'c'),
    ])
    .unwrap();
    assert_eq!(pattern.find_all(b"abc aXc ac abbc a\0c", false), vec![0, 4, 16]);
    assert_eq!(pattern.find_all(b"abc aXc ac abbc a\0c", true), vec![0, 4, 16]);
    assert_eq!(pattern.cell(0), PatternByte::Exact(b'a'));
    assert_eq!(pattern.cell(1), PatternByte::Any);
    assert!(pattern.matches_at(b"abc", 0));
    assert!(!pattern.matches_at(b"abc", 1));
    assert!(!pattern.matches_at(b"ab", 0));
}

#[test]
fn overlapping_occurrences_are_all_found_in_both_modes() {
    let pattern = Pattern::literal(b"aa").unwrap();
    assert_eq!(pattern.find_all(b"aaaaa", false), vec![0, 1, 2, 3]);
    assert_eq!(pattern.find_all(b"aaaaa", true), vec![0, 1, 2, 3]);
    let pattern = Pattern::literal(b"abab").unwrap();
    assert_eq!(pattern.find_all(b"abababab", false), vec![0, 2, 4]);
    assert_eq!(pattern.find_all(b"abababab", true), vec![0, 2, 4]);
}

#[test]
fn skipping_search_agrees_with_exhaustive_search() {
    let patterns: Vec<Vec<PatternByte>> = vec![
        vec![PatternByte::Exact(1)],
        vec![PatternByte::Any],
        vec![PatternByte::Exact(1), PatternByte::Exact(2)],
        vec![PatternByte::Any, PatternByte::Exact(2)],
        vec![PatternByte::Exact(1), PatternByte::Any],
        vec![PatternByte::Exact(2), PatternByte::Any, PatternByte::Exact(1), PatternByte::Exact(2)],
        vec![PatternByte::Exact(0), PatternByte::Exact(1), PatternByte::Any, PatternByte::Exact(0)],
    ];
    let mut buffer: Vec<u8> = Vec::new();
    let mut x: u32 = 12345;
    for _ in 0..600 {
        x = x.wrapping_mul(1103515245).wrapping_add(12345);
        buffer.push(((x >> 16) % 3) as u8);
    }
    for cells in patterns {
        let pattern = Pattern::new(cells).unwrap();
        let fast = pattern.find_skipping(&buffer);
        let full = pattern.find_exhaustive(&buffer);
        assert_eq!(fast, full);
        for &o in &full {
            assert!(pattern.matches_at(&buffer, o));
        }
        let count = (0..buffer.len()).filter(|&o| pattern.matches_at(&buffer, o)).count();
        assert_eq!(count, full.len());
    }
}

#[test]
fn shift_table_holds_the_distance_to_the_nearest_accepting_position() {
    let pattern = Pattern::literal(b"abcab").unwrap();
    let table = pattern.shift_table();
    assert_eq!(table.len(), 256);
    assert_eq!(table[b'a' as usize], 1);
    assert_eq!(table[b'b' as usize], 3);
    assert_eq!(table[b'c' as usize], 2);
    assert_eq!(table[b'z' as usize], 5);
    let pattern = Pattern::new(vec![
        PatternByte::Exact(b'a'),
        PatternByte::Any,
        PatternByte::Exact(b'c'),
        PatternByte::Exact(b'd'),
    ])
    .unwrap();
    let table = pattern.shift_table();
    assert_eq!(table[b'c' as usize], 1);
    assert_eq!(table[b'z' as usize], 2);
    assert_eq!(table[b'a' as usize], 2);
}

#[test]
fn repeated_scans_are_identical() {
    let registry = registry_of(vec![
        rule("zip", b"PK", Confidence::Medium, Some("zip")),
        rule("gz", b"\x1f\x8b", Confidence::High, None),
    ]);
    let buffer = b"PK\x02..\x1f\x8bPK\x03PK\x04\x1f\x8b".to_vec();
    let first = scan(&registry, &Filter::everything(), &buffer, false, &EvenFollower);
    let second = scan(&registry, &Filter::everything(), &buffer, false, &EvenFollower);
    let third = scan(&registry, &Filter::everything(), &buffer, true, &EvenFollower);
    assert_eq!(first.entries(), second.entries());
    assert_eq!(first.entries(), third.entries());
    let offsets: Vec<usize> = first.entries().iter().map(|e| e.offset).collect();
    assert_eq!(offsets, vec![0, 5, 10, 13]);
}

#[test]
fn rejected_hits_are_dropped_silently() {
    let registry = registry_of(vec![rule("zip", b"PK", Confidence::Medium, Some("zip"))]);
    let buffer = b"PK\x01PK\x02PK".to_vec();
    let results = scan(&registry, &Filter::everything(), &buffer, false, &EvenFollower);
    assert_eq!(results.len(), 1);
    assert_eq!(results.get(0).offset, 3);
    assert_eq!(results.get(0).confidence, Confidence::Low);
    assert_eq!(results.get(0).size, 0);
}

#[test]
fn a_rule_naming_a_validator_is_rejected_by_the_empty_validator_set() {
    let registry = registry_of(vec![
        rule("zip", b"PK", Confidence::Medium, Some("zip")),
        rule("gz", b"\x1f\x8b", Confidence::High, None),
    ]);
    let results = scan(&registry, &Filter::everything(), b"PK\x1f\x8b", false, &NoValidators);
    assert_eq!(results.len(), 1);
    assert_eq!(results.get(0).id, "gz");
}

#[test]
fn results_ascend_by_offset_then_descend_by_confidence_then_follow_declaration() {
    let registry = registry_of(vec![
        rule("low", b"AB", Confidence::Low, None),
        rule("high", b"A", Confidence::High, None),
        rule("medium-first", b"ABC", Confidence::Medium, None),
        rule("medium-second", b"AB", Confidence::Medium, None),
        rule("early", b"x", Confidence::Low, None),
    ]);
    let results = scan(&registry, &Filter::everything(), b"xABC", false, &NoValidators);
    let ids: Vec<&str> = results.entries().iter().map(|e| e.id.as_str()).collect();
    assert_eq!(ids, vec!["early", "high", "medium-first", "medium-second", "low"]);
    let entries = results.entries();
    for pair in entries.windows(2) {
        assert!(pair[0].offset <= pair[1].offset);
        if pair[0].offset == pair[1].offset {
            assert!(pair[0].confidence.level() >= pair[1].confidence.level());
        }
    }
}

#[test]
fn distinct_signatures_at_one_offset_are_all_kept() {
    let registry = registry_of(vec![
        rule("one", b"MAGIC", Confidence::Medium, None),
        rule("two", b"MAGIC", Confidence::Medium, None),
        rule("three", b"MAG", Confidence::Medium, None),
    ]);
    let results = scan(&registry, &Filter::everything(), b"..MAGIC..", true, &NoValidators);
    assert_eq!(results.len(), 3);
    for e in results.entries() {
        assert_eq!(e.offset, 2);
    }
    let ids: Vec<&str> = results.entries().iter().map(|e| e.id.as_str()).collect();
    assert_eq!(ids, vec!["one", "two", "three"]);
}

#[test]
fn suppressed_signatures_are_absent_even_when_also_wanted() {
    let registry = registry_of(vec![
        rule("zip", b"PK", Confidence::Medium, None),
        rule("gz", b"GZ", Confidence::Medium, None),
        rule("png", b"PNG", Confidence::Medium, None),
    ]);
    let buffer = b"PK GZ PNG".to_vec();
    let only = Filter { restrict_to: Some(vec!["zip".to_string(), "GZ".to_string()]), suppress: None };
    let ids: Vec<String> =
        scan(&registry, &only, &buffer, false, &NoValidators).entries().iter().map(|e| e.id.clone()).collect();
    assert_eq!(ids, vec!["zip", "gz"]);
    let without = Filter { restrict_to: None, suppress: Some(vec!["gz".to_string()]) };
    let ids: Vec<String> =
        scan(&registry, &without, &buffer, false, &NoValidators).entries().iter().map(|e| e.id.clone()).collect();
    assert_eq!(ids, vec!["zip", "png"]);
    let both = Filter {
        restrict_to: Some(vec!["zip".to_string(), "gz".to_string()]),
        suppress: Some(vec!["ZIP".to_string()]),
    };
    let ids: Vec<String> =
        scan(&registry, &both, &buffer, false, &NoValidators).entries().iter().map(|e| e.id.clone()).collect();
    assert_eq!(ids, vec!["gz"]);
    let nothing = Filter { restrict_to: Some(Vec::new()), suppress: None };
    assert_eq!(scan(&registry, &nothing, &buffer, false, &NoValidators).len(), 0);
    assert!(both.admits(registry.rule(1)));
    assert!(!both.admits(registry.rule(0)));
    assert!(!both.admits(registry.rule(2)));
}

#[test]
fn hits_come_rule_by_rule_in_ascending_offsets() {
    let registry = registry_of(vec![
        rule("b", b"b", Confidence::Medium, None),
        rule("a", b"a", Confidence::Medium, None),
    ]);
    let hits = find_hits(&registry, &Filter::everything(), b"abab", false);
    assert_eq!(
        hits,
        vec![
            Hit { rule: 0, offset: 1 },
            Hit { rule: 0, offset: 3 },
            Hit { rule: 1, offset: 0 },
            Hit { rule: 1, offset: 2 },
        ]
    );
}

#[test]
fn judge_applies_the_verdict_only_where_a_validator_is_named() {
    let plain = rule("plain", b"x", Confidence::Medium, None);
    let checked = rule("checked", b"x", Confidence::Medium, Some("v"));
    let hit = Hit { rule: 3, offset: 9 };
    let accept = Verdict::Accept { confidence: Confidence::High, size: Some(5) };
    assert_eq!(
        judge(&plain, hit, Verdict::Reject),
        Some(ScanMatch { rule: 3, offset: 9, confidence: Confidence::Medium, size: None })
    );
    assert_eq!(
        judge(&plain, hit, accept),
        Some(ScanMatch { rule: 3, offset: 9, confidence: Confidence::Medium, size: None })
    );
    assert_eq!(judge(&checked, hit, Verdict::Reject), None);
    assert_eq!(
        judge(&checked, hit, accept),
        Some(ScanMatch { rule: 3, offset: 9, confidence: Confidence::High, size: Some(5) })
    );
}

#[test]
fn scan_with_verdicts_takes_one_verdict_for_each_hit() {
    let registry = registry_of(vec![
        rule("zip", b"PK", Confidence::Medium, Some("zip")),
        rule("gz", b"GZ", Confidence::Low, None),
    ]);
    let buffer = b"PK GZ PK".to_vec();
    let verdicts = vec![
        Verdict::Reject,
        Verdict::Accept { confidence: Confidence::High, size: Some(2) },
        Verdict::Reject,
    ];
    let results =
        scan_with_verdicts(&registry, &Filter::everything(), &buffer, false, &verdicts).unwrap();
    let seen: Vec<(usize, &str, usize)> =
        results.entries().iter().map(|e| (e.offset, e.id.as_str(), e.size)).collect();
    assert_eq!(seen, vec![(3, "gz", 0), (6, "zip", 2)]);
    assert!(scan_with_verdicts(&registry, &Filter::everything(), &buffer, false, &verdicts[..2].to_vec())
        .is_none());
}

#[test]
fn resolve_orders_and_filters_raw_matches() {
    let registry = registry_of(vec![
        rule("a", b"a", Confidence::Medium, None),
        rule("b", b"b", Confidence::Medium, None),
    ]);
    let raw = vec![
        ScanMatch { rule: 1, offset: 9, confidence: Confidence::Low, size: None },
        ScanMatch { rule: 0, offset: 9, confidence: Confidence::Low, size: Some(4) },
        ScanMatch { rule: 1, offset: 2, confidence: Confidence::Low, size: None },
        ScanMatch { rule: 0, offset: 2, confidence: Confidence::High, size: None },
        ScanMatch { rule: 0, offset: 0, confidence: Confidence::Low, size: None },
    ];
    let sorted = sort_matches(&raw);
    assert_eq!(sorted, vec![raw[4], raw[3], raw[2], raw[1], raw[0]]);
    let results = resolve(&registry, &Filter::everything(), &raw);
    let seen: Vec<(usize, &str, usize)> =
        results.entries().iter().map(|e| (e.offset, e.id.as_str(), e.size)).collect();
    assert_eq!(seen, vec![(0, "a", 0), (2, "a", 0), (2, "b", 0), (9, "a", 4), (9, "b", 0)]);
    let only_b = Filter { restrict_to: Some(vec!["B".to_string()]), suppress: None };
    let results = resolve(&registry, &only_b, &raw);
    let seen: Vec<usize> = results.entries().iter().map(|e| e.offset).collect();
    assert_eq!(seen, vec![2, 9]);
}

#[test]
fn a_second_rule_with_a_taken_identifier_is_refused() {
    let mut registry = Registry::new();
    assert_eq!(registry.register(rule("zip", b"PK", Confidence::Medium, None)), Ok(()));
    assert_eq!(
        registry.register(rule("zip", b"ZZ", Confidence::Low, None)),
        Err(RegistryError::DuplicateId)
    );
    assert_eq!(registry.len(), 1);
    assert_eq!(registry.find(&"zip".to_string()), Some(0));
    assert_eq!(registry.find(&"gz".to_string()), None);
    assert_eq!(registry.rule(0).pattern.len(), 2);
}

#[test]
fn confidence_tiers_are_ordered_and_labelled() {
    assert!(Confidence::Low.level() < Confidence::Medium.level());
    assert!(Confidence::Medium.level() < Confidence::High.level());
    assert_eq!(Confidence::Low.label(), "low");
    assert_eq!(Confidence::Medium.label(), "medium");
    assert_eq!(Confidence::High.label(), "high");
}

struct RaisedAfter {
    asked: std::cell::Cell<usize>,
    limit: usize,
}

impl StopSignal for RaisedAfter {
    fn raised(&self) -> bool {
        let asked = self.asked.get();
        self.asked.set(asked + 1);
        asked >= self.limit
    }
}

#[test]
fn a_stopped_scan_returns_what_was_confirmed_so_far() {
    let registry = registry_of(vec![
        rule("b", b"b", Confidence::Medium, None),
        rule("a", b"a", Confidence::Medium, None),
    ]);
    let buffer = b"abab".to_vec();
    let everything = Filter::everything();
    let whole = scan_until(&registry, &everything, &buffer, false, &NoValidators, &NeverStop);
    assert_eq!(whole.entries(), scan(&registry, &everything, &buffer, false, &NoValidators).entries());
    let stop = RaisedAfter { asked: std::cell::Cell::new(0), limit: 3 };
    let part = scan_until(&registry, &everything, &buffer, false, &NoValidators, &stop);
    let seen: Vec<(usize, &str)> = part.entries().iter().map(|e| (e.offset, e.id.as_str())).collect();
    assert_eq!(seen, vec![(0, "a"), (1, "b"), (3, "b")]);
    let stop = RaisedAfter { asked: std::cell::Cell::new(0), limit: 0 };
    assert_eq!(scan_until(&registry, &everything, &buffer, false, &NoValidators, &stop).len(), 0);
}
