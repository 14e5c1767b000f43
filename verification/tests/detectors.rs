// Detector behaviour over hand-built workspaces, mirroring the fixture
// contracts the detectors were developed against.

use aderyn::ast::{AstPayload, NodeBody, NodeId, NodeType, Mutability, RawNode, SourceSpan};
use aderyn::detector::{IssueDetector, IssueSeverity};
use aderyn::push_zero_opcode::PushZeroOpcodeDetector;
use aderyn::requires_in_loops::RevertsAndRequiresInLoopsDetector;
use aderyn::zero_address_check::ZeroAddressCheckDetector;
use aderyn::workspace::WorkspaceContext;

fn raw(id: u64, span: Option<SourceSpan>, body: NodeBody) -> RawNode {
    RawNode { id: Some(id), span, body }
}

fn sp(offset: usize, length: usize) -> Option<SourceSpan> {
    Some(SourceSpan { offset, length })
}

fn pragma_context(literals: &[&str]) -> WorkspaceContext {
    let source = "pragma solidity something;\nline two\n";
    let nodes = vec![
        raw(
            1,
            None,
            NodeBody::SourceUnit {
                absolute_path: "src/Example.sol".to_string(),
                source: Some(source.to_string()),
                members: vec![2],
            },
        ),
        raw(
            2,
            sp(0, 25),
            NodeBody::PragmaDirective {
                literals: literals.iter().map(|s| s.to_string()).collect(),
            },
        ),
    ];
    WorkspaceContext::ingest(AstPayload { nodes }).unwrap()
}

#[test]
fn test_push_0_opcode_detector_on_0_8_20() {
    let context = pragma_context(&["solidity", "^", "0.8.20"]);
    let mut detector = PushZeroOpcodeDetector::default();
    let found = detector.detect(&context).unwrap();
    // assert that it found something
    assert!(found);
    // assert that the number of instances is correct
    assert_eq!(detector.instances().len(), 1);
    // assert that the severity is low
    assert_eq!(detector.severity(), IssueSeverity::Low);
    // assert that the title is correct
    assert_eq!(
        detector.title(),
        String::from("PUSH0 is not supported by all chains")
    );
    // assert that the description is correct
    assert_eq!(
        detector.description(),
        String::from(
            "Solc compiler version 0.8.20 switches the default target EVM version to Shanghai, which means that the generated bytecode will include PUSH0 opcodes. Be sure to select the appropriate EVM version in case you intend to deploy on a chain other than mainnet like L2 chains that may not support PUSH0, otherwise deployment of your contracts will fail."
        )
    );
}

#[test]
fn test_push_0_opcode_detector_on_range() {
    let context = pragma_context(&["solidity", ">=", "0.8.19", "<", "0.9.0"]);
    let mut detector = PushZeroOpcodeDetector::default();
    let found = detector.detect(&context).unwrap();
    assert!(found);
    assert_eq!(detector.instances().len(), 1);
    assert_eq!(detector.severity(), IssueSeverity::Low);
    assert_eq!(
        detector.title(),
        String::from("PUSH0 is not supported by all chains")
    );
    assert_eq!(
        detector.description(),
        String::from(
            "Solc compiler version 0.8.20 switches the default target EVM version to Shanghai, which means that the generated bytecode will include PUSH0 opcodes. Be sure to select the appropriate EVM version in case you intend to deploy on a chain other than mainnet like L2 chains that may not support PUSH0, otherwise deployment of your contracts will fail."
        )
    );
}

#[test]
fn test_push_0_opcode_detector_on_0_8_19() {
    let context = pragma_context(&["solidity", "0.8.19"]);
    let mut detector = PushZeroOpcodeDetector::default();
    let found = detector.detect(&context).unwrap();
    // assert that it found nothing
    assert!(!found);
    assert_eq!(detector.instances().len(), 0);
}

#[test]
fn test_push_0_opcode_detector_on_caret_0_8_13() {
    let context = pragma_context(&["solidity", "^", "0.8.13"]);
    let mut detector = PushZeroOpcodeDetector::default();
    let found = detector.detect(&context).unwrap();
    assert!(found);
    assert_eq!(detector.instances().len(), 1);
}

#[test]
fn test_push_0_opcode_detector_on_greter_equal_0_8_0() {
    let context = pragma_context(&["solidity", ">=", "0.8.0"]);
    let mut detector = PushZeroOpcodeDetector::default();
    let found = detector.detect(&context).unwrap();
    assert!(found);
    assert_eq!(detector.instances().len(), 1);
}

/// A function holding one `require` inside a for loop, one `revert`
/// inside a while loop, and one `require` outside any loop.
fn loops_context() -> WorkspaceContext {
    let source = "aaaa\nbbbb\ncccc\ndddd\neeee\n";
    let nodes = vec![
        raw(
            1,
            None,
            NodeBody::SourceUnit {
                absolute_path: "src/PanicInLoop.sol".to_string(),
                source: Some(source.to_string()),
                members: vec![2],
            },
        ),
        raw(2, sp(0, 4), NodeBody::ContractDefinition { name: "PotentialPanicInLoop".to_string(), members: vec![3] }),
        raw(3, sp(0, 4), NodeBody::FunctionDefinition { name: "f".to_string(), parameters: vec![], body: vec![4] }),
        raw(4, sp(0, 4), NodeBody::Block { statements: vec![5, 10, 16] }),
        // for (...) { require(...); }
        raw(5, sp(0, 4), NodeBody::ForStatement { initialization: None, condition: None, loop_expression: None, body: 6 }),
        raw(6, sp(0, 4), NodeBody::Block { statements: vec![7] }),
        raw(7, sp(0, 4), NodeBody::ExpressionStatement { expression: 8 }),
        raw(8, sp(0, 4), NodeBody::FunctionCall { expression: 9, arguments: vec![] }),
        raw(9, sp(0, 4), NodeBody::Identifier { name: "require".to_string(), referenced_declaration: 0 }),
        // while (...) { revert(); }
        raw(10, sp(5, 4), NodeBody::WhileStatement { condition: 11, body: 12 }),
        raw(11, sp(5, 4), NodeBody::Literal { value: "true".to_string() }),
        raw(12, sp(5, 4), NodeBody::Block { statements: vec![13] }),
        raw(13, sp(5, 4), NodeBody::ExpressionStatement { expression: 14 }),
        raw(14, sp(5, 4), NodeBody::FunctionCall { expression: 15, arguments: vec![] }),
        raw(15, sp(5, 4), NodeBody::Identifier { name: "revert".to_string(), referenced_declaration: 0 }),
        // require(...) outside any loop
        raw(16, sp(10, 4), NodeBody::ExpressionStatement { expression: 17 }),
        raw(17, sp(10, 4), NodeBody::FunctionCall { expression: 18, arguments: vec![] }),
        raw(18, sp(10, 4), NodeBody::Identifier { name: "require".to_string(), referenced_declaration: 0 }),
    ];
    WorkspaceContext::ingest(AstPayload { nodes }).unwrap()
}

#[test]
fn test_reverts_and_requires_in_loops() {
    let context = loops_context();
    let mut detector = RevertsAndRequiresInLoopsDetector::default();
    let found = detector.detect(&context).unwrap();
    // assert that the detector found an issue
    assert!(found);
    // assert that the detector found the correct number of instances
    assert_eq!(detector.instances().len(), 2);
    // assert the severity is low
    assert_eq!(detector.severity(), IssueSeverity::Low);
    // assert the title is correct
    assert_eq!(
        detector.title(),
        String::from("Loop contains `require`/`revert` statements")
    );
    // assert the description is correct
    assert_eq!(
        detector.description(),
        String::from("Avoid `require` / `revert` statements in a loop because a single bad item can cause the whole transaction to fail. It's better to forgive on fail and return failed elements post processing of the loop")
    );
}

#[test]
fn test_requires_inside_loops_only_are_captured() {
    // two `require` calls nested inside for loops and one outside: the
    // two inside are captured, both with a for statement among their
    // ancestors
    let source = "aaaa\nbbbb\ncccc\ndddd\n";
    let nodes = vec![
        raw(1, None, NodeBody::SourceUnit {
            absolute_path: "src/Loops.sol".to_string(),
            source: Some(source.to_string()),
            members: vec![2],
        }),
        raw(2, sp(0, 4), NodeBody::ContractDefinition { name: "C".to_string(), members: vec![3] }),
        raw(3, sp(0, 4), NodeBody::FunctionDefinition { name: "f".to_string(), parameters: vec![], body: vec![4] }),
        raw(4, sp(0, 4), NodeBody::Block { statements: vec![5, 20, 30] }),
        raw(5, sp(0, 4), NodeBody::ForStatement { initialization: None, condition: None, loop_expression: None, body: 6 }),
        raw(6, sp(0, 4), NodeBody::Block { statements: vec![7] }),
        raw(7, sp(0, 4), NodeBody::ExpressionStatement { expression: 8 }),
        raw(8, sp(0, 4), NodeBody::FunctionCall { expression: 9, arguments: vec![] }),
        raw(9, sp(0, 4), NodeBody::Identifier { name: "require".to_string(), referenced_declaration: 0 }),
        raw(20, sp(5, 4), NodeBody::ForStatement { initialization: None, condition: None, loop_expression: None, body: 21 }),
        raw(21, sp(5, 4), NodeBody::Block { statements: vec![22] }),
        raw(22, sp(5, 4), NodeBody::ExpressionStatement { expression: 23 }),
        raw(23, sp(5, 4), NodeBody::FunctionCall { expression: 24, arguments: vec![] }),
        raw(24, sp(5, 4), NodeBody::Identifier { name: "require".to_string(), referenced_declaration: 0 }),
        raw(30, sp(10, 4), NodeBody::ExpressionStatement { expression: 31 }),
        raw(31, sp(10, 4), NodeBody::FunctionCall { expression: 32, arguments: vec![] }),
        raw(32, sp(10, 4), NodeBody::Identifier { name: "require".to_string(), referenced_declaration: 0 }),
    ];
    let context = WorkspaceContext::ingest(AstPayload { nodes }).unwrap();
    let mut detector = RevertsAndRequiresInLoopsDetector::default();
    let found = detector.detect(&context).unwrap();
    assert!(found);
    let instances = detector.instances();
    assert_eq!(instances.len(), 2);
    for entry in instances.entries() {
        let inside_for = context
            .closest_ancestor_of_type(entry.1, NodeType::ForStatement)
            .is_some();
        assert!(inside_for);
    }
}

fn address_state_var(id: u64, name: &str) -> RawNode {
    raw(id, None, NodeBody::VariableDeclaration {
        name: name.to_string(),
        constant: false,
        state_variable: true,
        mutability: Some(Mutability::Mutable),
        type_string: Some("address".to_string()),
    })
}

fn parameter(id: u64, name: &str) -> RawNode {
    raw(id, None, NodeBody::VariableDeclaration {
        name: name.to_string(),
        constant: false,
        state_variable: false,
        mutability: Some(Mutability::Mutable),
        type_string: Some("address".to_string()),
    })
}

fn zero_address_context() -> WorkspaceContext {
    let source = "l1l1\nl2l2\nl3l3\nl4l4\nl5l5\nl6l6\n";
    let nodes = vec![
        raw(1, None, NodeBody::SourceUnit {
            absolute_path: "src/ZeroAddressCheck.sol".to_string(),
            source: Some(source.to_string()),
            members: vec![2],
        }),
        raw(2, sp(0, 4), NodeBody::ContractDefinition {
            name: "ZeroAddressCheck".to_string(),
            members: vec![10, 11, 12, 20, 30, 40, 50],
        }),
        address_state_var(10, "addr1"),
        address_state_var(11, "addr2"),
        address_state_var(12, "addr3"),
        // function bad1(param) { addr1 = param; }
        raw(20, sp(0, 4), NodeBody::FunctionDefinition { name: "bad1".to_string(), parameters: vec![21], body: vec![22] }),
        parameter(21, "p1"),
        raw(22, sp(0, 4), NodeBody::ExpressionStatement { expression: 23 }),
        raw(23, sp(0, 4), NodeBody::Assignment {
            operator: "=".to_string(),
            left_hand_side: 24,
            right_hand_side: 25,
        }),
        raw(24, sp(0, 4), NodeBody::Identifier { name: "addr1".to_string(), referenced_declaration: 10 }),
        raw(25, sp(0, 4), NodeBody::Identifier { name: "p1".to_string(), referenced_declaration: 21 }),
        // function bad2(param) { addr2 = param; }
        raw(30, sp(5, 4), NodeBody::FunctionDefinition { name: "bad2".to_string(), parameters: vec![31], body: vec![32] }),
        parameter(31, "p2"),
        raw(32, sp(5, 4), NodeBody::ExpressionStatement { expression: 33 }),
        raw(33, sp(5, 4), NodeBody::Assignment {
            operator: "=".to_string(),
            left_hand_side: 34,
            right_hand_side: 35,
        }),
        raw(34, sp(5, 4), NodeBody::Identifier { name: "addr2".to_string(), referenced_declaration: 11 }),
        raw(35, sp(5, 4), NodeBody::Identifier { name: "p2".to_string(), referenced_declaration: 31 }),
        // function bad3(param) { addr3 = param; }
        raw(40, sp(10, 4), NodeBody::FunctionDefinition { name: "bad3".to_string(), parameters: vec![41], body: vec![42] }),
        parameter(41, "p3"),
        raw(42, sp(10, 4), NodeBody::ExpressionStatement { expression: 43 }),
        raw(43, sp(10, 4), NodeBody::Assignment {
            operator: "=".to_string(),
            left_hand_side: 44,
            right_hand_side: 45,
        }),
        raw(44, sp(10, 4), NodeBody::Identifier { name: "addr3".to_string(), referenced_declaration: 12 }),
        raw(45, sp(10, 4), NodeBody::Identifier { name: "p3".to_string(), referenced_declaration: 41 }),
        // function good(param) { require(param != address(0)); addr1 = param; }
        raw(50, sp(15, 4), NodeBody::FunctionDefinition { name: "good".to_string(), parameters: vec![51], body: vec![52, 58] }),
        parameter(51, "p4"),
        raw(52, sp(15, 4), NodeBody::ExpressionStatement { expression: 53 }),
        raw(53, sp(15, 4), NodeBody::FunctionCall { expression: 54, arguments: vec![55] }),
        raw(54, sp(15, 4), NodeBody::Identifier { name: "require".to_string(), referenced_declaration: 0 }),
        raw(55, sp(15, 4), NodeBody::BinaryOperation {
            operator: "!=".to_string(),
            left_expression: 56,
            right_expression: 57,
        }),
        raw(56, sp(15, 4), NodeBody::Identifier { name: "p4".to_string(), referenced_declaration: 51 }),
        raw(57, sp(15, 4), NodeBody::Literal { value: "0".to_string() }),
        raw(58, sp(20, 4), NodeBody::ExpressionStatement { expression: 59 }),
        raw(59, sp(20, 4), NodeBody::Assignment {
            operator: "=".to_string(),
            left_hand_side: 60,
            right_hand_side: 61,
        }),
        raw(60, sp(20, 4), NodeBody::Identifier { name: "addr1".to_string(), referenced_declaration: 10 }),
        raw(61, sp(20, 4), NodeBody::Identifier { name: "p4".to_string(), referenced_declaration: 51 }),
    ];
    WorkspaceContext::ingest(AstPayload { nodes }).unwrap()
}

#[test]
fn test_deprecated_oz_functions_detector() {
    let context = zero_address_context();
    let mut detector = ZeroAddressCheckDetector::default();
    let found = detector.detect(&context).unwrap();
    // assert that the detector found the issue
    assert!(found);
    // assert that the detector found the correct number of issues
    assert_eq!(detector.instances().len(), 3);
    for entry in detector.instances().entries() {
        let node = context.get(entry.1).unwrap();
        assert!(matches!(node.body, NodeBody::Assignment { .. }));
        let function = context
            .closest_ancestor_of_type(entry.1, NodeType::FunctionDefinition)
            .unwrap();
        match &context.get(function).unwrap().body {
            NodeBody::FunctionDefinition { name, .. } => assert!(name.contains("bad")),
            _ => panic!("expected a function definition"),
        }
    }
    // assert that the severity is NC
    assert_eq!(detector.severity(), IssueSeverity::NC);
    // assert that the title is correct
    assert_eq!(
        detector.title(),
        String::from("Missing checks for `address(0)` when assigning values to address state variables")
    );
    // assert that the description is correct
    assert_eq!(
        detector.description(),
        String::from("Check for `address(0)` when assigning values to address state variables.")
    );
}

#[test]
fn test_zero_address_checked_parameter_is_not_captured() {
    // the `good` function compares its parameter with `!=` before the
    // assignment, so that assignment (node 59) is never captured
    let context = zero_address_context();
    let mut detector = ZeroAddressCheckDetector::default();
    detector.detect(&context).unwrap();
    for entry in detector.instances().entries() {
        assert_ne!(entry.1, 59);
    }
}
