// The detector registry, the version-requirement rule, the report
// engine, and the plain helper modules.

use aderyn::blame::verify_blame_coverage;
use aderyn::detector::{
    get_all_detectors_names, get_all_issue_detectors, get_issue_detector_by_name, run_detectors,
    AnyDetector, IssueSeverity,
};
use aderyn::ast::{AstPayload, NodeBody, RawNode};
use aderyn::foundry::{default_out, default_src, get_matching_output_files};
use aderyn::instances::InstanceMap;
use aderyn::metadata::{custom_detectors, Metadata};
use aderyn::paths::get_relevant_pathbufs;
use aderyn::semver_req::{parse_version_requirement, version_req_allows_above_0_8_19};
use aderyn::workspace::WorkspaceContext;

#[test]
fn registry_names_and_lookup() {
    let names = get_all_detectors_names();
    assert_eq!(
        names,
        vec![
            "zero-address-check".to_string(),
            "push-zero-opcode".to_string(),
            "reverts-and-requires-in-loops".to_string(),
        ]
    );
    assert_eq!(get_all_issue_detectors().len(), 3);
    assert!(get_issue_detector_by_name("push-zero-opcode").is_ok());
    // an unrecognized or placeholder name is a construction-time failure
    assert!(get_issue_detector_by_name("undecided").is_err());
    assert!(get_issue_detector_by_name("no-such-detector").is_err());
}

#[test]
fn severity_strings() {
    assert_eq!(IssueSeverity::NC.severity_string(), "NC (Non Critical)".to_string());
    assert_eq!(IssueSeverity::Low.severity_string(), "Low".to_string());
    assert_eq!(IssueSeverity::Medium.severity_string(), "Medium".to_string());
    assert_eq!(IssueSeverity::High.severity_string(), "High".to_string());
    assert_eq!(IssueSeverity::Critical.severity_string(), "Critical".to_string());
}

#[test]
fn version_requirement_rule() {
    // parsing goes through the real semver grammar
    let caret = parse_version_requirement("^0.8.20").unwrap();
    assert!(version_req_allows_above_0_8_19(&caret));
    let caret_old = parse_version_requirement("^0.7.0").unwrap();
    assert!(!version_req_allows_above_0_8_19(&caret_old));
    let exact_new = parse_version_requirement("=0.8.20").unwrap();
    assert!(version_req_allows_above_0_8_19(&exact_new));
    let exact_old = parse_version_requirement("=0.8.19").unwrap();
    assert!(!version_req_allows_above_0_8_19(&exact_old));
    let greater = parse_version_requirement(">=0.8.0").unwrap();
    assert!(version_req_allows_above_0_8_19(&greater));
    let range = parse_version_requirement(">=0.8.19,<0.9.0").unwrap();
    assert!(version_req_allows_above_0_8_19(&range));
    // an invalid requirement is a parse failure, not a panic
    assert!(parse_version_requirement("not a version").is_none());
}

#[test]
fn engine_buckets_by_severity() {
    let nodes = vec![RawNode {
        id: Some(1),
        span: None,
        body: NodeBody::SourceUnit {
            absolute_path: "src/Empty.sol".to_string(),
            source: None,
            members: vec![],
        },
    }];
    let ctx = WorkspaceContext::ingest(AstPayload { nodes }).unwrap();
    let (report, failed) = run_detectors(&ctx, get_all_issue_detectors());
    // nothing to find in an empty unit, and nothing fails
    assert!(failed.is_empty());
    assert!(report.criticals.is_empty());
    assert!(report.highs.is_empty());
    assert!(report.mediums.is_empty());
    assert!(report.lows.is_empty());
    assert!(report.ncs.is_empty());
}

#[test]
fn engine_reports_a_finding_at_its_severity() {
    let nodes = vec![
        RawNode {
            id: Some(1),
            span: None,
            body: NodeBody::SourceUnit {
                absolute_path: "src/Example.sol".to_string(),
                source: Some("pragma solidity ^0.8.20;\n".to_string()),
                members: vec![2],
            },
        },
        RawNode {
            id: Some(2),
            span: None,
            body: NodeBody::PragmaDirective {
                literals: vec!["solidity".to_string(), "^".to_string(), "0.8.20".to_string()],
            },
        },
    ];
    let ctx = WorkspaceContext::ingest(AstPayload { nodes }).unwrap();
    let (report, failed) = run_detectors(&ctx, get_all_issue_detectors());
    assert!(failed.is_empty());
    assert_eq!(report.lows.len(), 1);
    assert_eq!(report.lows[0].detector_name, "push-zero-opcode".to_string());
    assert_eq!(report.lows[0].instances.len(), 1);
    assert!(report.criticals.is_empty());
    assert!(report.highs.is_empty());
    assert!(report.mediums.is_empty());
    assert!(report.ncs.is_empty());
}

#[test]
fn default_directories() {
    assert_eq!(default_src(), "src".to_string());
    assert_eq!(default_out(), "out".to_string());
}

#[test]
fn matching_output_files_by_source_name() {
    let outputs = vec![
        "out/A.sol/A.json".to_string(),
        "out/Old.sol/Old.json".to_string(),
        "out/1/Nested.sol/Nested.json".to_string(),
        "out/2/Nested.sol/Nested.json".to_string(),
    ];
    let sources = vec![
        "src/A.sol".to_string(),
        "src/1/Nested.sol".to_string(),
    ];
    let matched = get_matching_output_files(&outputs, &sources);
    assert_eq!(
        matched,
        vec![
            "out/A.sol/A.json".to_string(),
            "out/1/Nested.sol/Nested.json".to_string(),
            "out/2/Nested.sol/Nested.json".to_string(),
        ]
    );
}

#[test]
fn relevant_paths_respect_all_filters() {
    let paths = vec![
        "/r/src/A.sol".to_string(),
        "/r/src/tests/B.sol".to_string(),
        "/r/lib/C.sol".to_string(),
    ];
    let src = Some(vec!["src".to_string()]);
    let scope: Option<Vec<String>> = None;
    let exclude = Some(vec!["tests/".to_string()]);
    let kept = get_relevant_pathbufs(&paths, &src, &scope, &exclude);
    assert_eq!(kept, vec!["/r/src/A.sol".to_string()]);
}

#[test]
fn metadata_spells_severities() {
    assert!(custom_detectors().is_empty());
    let detectors: Vec<AnyDetector> = get_all_issue_detectors();
    let metadata = Metadata::from_detectors(&detectors);
    assert_eq!(metadata.custom_bots.len(), 3);
    assert_eq!(metadata.custom_bots[0].severity, "NC".to_string());
    assert_eq!(metadata.custom_bots[1].severity, "Low".to_string());
}

#[test]
fn blame_coverage_reports_uncovered_lines() {
    let lines = vec![
        "contract C {".to_string(),
        "// @nyth:blame(my-detector,other)".to_string(),
        "bad line here".to_string(),
        "// @nyth:blame(other)".to_string(),
        "another line".to_string(),
        "}".to_string(),
    ];
    // no instances captured: the expected line (3) is uncovered
    let empty = InstanceMap::new();
    let (ok, missing) = verify_blame_coverage(&empty, "tests/Fix.sol", &lines, "my-detector");
    assert!(!ok);
    assert_eq!(missing, vec![3]);
    // a detector not named by any marker has nothing to cover
    let (ok2, missing2) = verify_blame_coverage(&empty, "tests/Fix.sol", &lines, "my-detector-2");
    assert!(ok2);
    assert!(missing2.is_empty());
}
