// Registry construction and relationship/extraction queries on small
// hand-built workspaces.

use aderyn::ast::{AstPayload, NodeBody, NodeType, RawNode};
use aderyn::instances::InstanceMap;
use aderyn::location::resolve_location;
use aderyn::workspace::{GetAncestors, WorkspaceContext};

fn raw(id: u64, body: NodeBody) -> RawNode {
    RawNode { id: Some(id), span: None, body }
}

fn small_context() -> WorkspaceContext {
    // unit(1) > contract(2) > function(3) > block(4) > stmt(5) > ident(6)
    let nodes = vec![
        raw(1, NodeBody::SourceUnit {
            absolute_path: "src/A.sol".to_string(),
            source: Some("hello\nworld\n".to_string()),
            members: vec![2],
        }),
        raw(2, NodeBody::ContractDefinition { name: "A".to_string(), members: vec![3] }),
        raw(3, NodeBody::FunctionDefinition { name: "f".to_string(), parameters: vec![], body: vec![4] }),
        raw(4, NodeBody::Block { statements: vec![5] }),
        raw(5, NodeBody::ExpressionStatement { expression: 6 }),
        raw(6, NodeBody::Identifier { name: "x".to_string(), referenced_declaration: 0 }),
    ];
    WorkspaceContext::ingest(AstPayload { nodes }).unwrap()
}

#[test]
fn ancestors_run_from_parent_to_source_unit() {
    let ctx = small_context();
    let chain = ctx.get_ancestors(6);
    assert_eq!(chain, vec![5, 4, 3, 2, 1]);
    // first element is the parent, last is the owning source unit
    assert_eq!(chain[0], ctx.parent_of(6).unwrap());
    assert_eq!(*chain.last().unwrap(), ctx.source_unit_of(6).unwrap());
    let node = ctx.get(6).unwrap();
    assert_eq!(node.ancestors(&ctx), Some(vec![5, 4, 3, 2, 1]));
}

#[test]
fn unknown_identities_yield_empty_results() {
    let ctx = small_context();
    assert_eq!(ctx.get_ancestors(999), Vec::<u64>::new());
    assert_eq!(ctx.parent_of(999), None);
    assert_eq!(ctx.closest_ancestor_of_type(999, NodeType::Block), None);
    assert_eq!(ctx.immediate_children(999), Vec::<u64>::new());
    assert_eq!(ctx.siblings(999), Vec::<u64>::new());
    assert_eq!(ctx.source_unit_of(999), None);
    assert_eq!(ctx.extract_of_type(999, NodeType::Identifier), Vec::<u64>::new());
    assert!(ctx.get(999).is_none());
}

#[test]
fn closest_ancestor_picks_the_nearest_match() {
    let ctx = small_context();
    assert_eq!(ctx.closest_ancestor_of_type(6, NodeType::Block), Some(4));
    assert_eq!(ctx.closest_ancestor_of_type(6, NodeType::SourceUnit), Some(1));
    assert_eq!(ctx.closest_ancestor_of_type(6, NodeType::ForStatement), None);
    // a root has no ancestors at all
    assert_eq!(ctx.closest_ancestor_of_type(1, NodeType::SourceUnit), None);
}

#[test]
fn extraction_returns_matching_descendants_in_order() {
    let ctx = small_context();
    assert_eq!(ctx.extract_of_type(1, NodeType::Identifier), vec![6]);
    assert_eq!(ctx.extract_of_type(3, NodeType::FunctionDefinition), vec![3]);
    // a leaf with no matching descendants yields nothing
    assert_eq!(ctx.extract_of_type(6, NodeType::Block), Vec::<u64>::new());
    assert_eq!(ctx.nodes_of_type(NodeType::ContractDefinition), vec![2]);
}

#[test]
fn children_and_siblings_read_one_level() {
    let ctx = small_context();
    assert_eq!(ctx.immediate_children(3), vec![4]);
    assert_eq!(ctx.siblings(4), vec![4]);
    assert_eq!(ctx.siblings(1), Vec::<u64>::new());
}

#[test]
fn ingest_rejects_malformed_payloads() {
    // a missing identity
    let missing = AstPayload {
        nodes: vec![RawNode {
            id: None,
            span: None,
            body: NodeBody::SourceUnit {
                absolute_path: "a".to_string(),
                source: None,
                members: vec![],
            },
        }],
    };
    assert!(WorkspaceContext::ingest(missing).is_err());
    // a duplicated identity
    let dup = AstPayload {
        nodes: vec![
            raw(1, NodeBody::SourceUnit { absolute_path: "a".to_string(), source: None, members: vec![] }),
            raw(1, NodeBody::SourceUnit { absolute_path: "b".to_string(), source: None, members: vec![] }),
        ],
    };
    assert!(WorkspaceContext::ingest(dup).is_err());
    // a dangling child reference
    let dangling = AstPayload {
        nodes: vec![raw(1, NodeBody::SourceUnit { absolute_path: "a".to_string(), source: None, members: vec![7] })],
    };
    assert!(WorkspaceContext::ingest(dangling).is_err());
    // a node owned twice
    let shared = AstPayload {
        nodes: vec![
            raw(1, NodeBody::SourceUnit { absolute_path: "a".to_string(), source: None, members: vec![2, 3] }),
            raw(2, NodeBody::Block { statements: vec![4] }),
            raw(3, NodeBody::Block { statements: vec![4] }),
            raw(4, NodeBody::Literal { value: "1".to_string() }),
        ],
    };
    assert!(WorkspaceContext::ingest(shared).is_err());
    // an ownership cycle hanging off a root
    let cyclic = AstPayload {
        nodes: vec![
            raw(1, NodeBody::SourceUnit { absolute_path: "a".to_string(), source: None, members: vec![] }),
            raw(2, NodeBody::Block { statements: vec![3] }),
            raw(3, NodeBody::Block { statements: vec![2] }),
        ],
    };
    assert!(WorkspaceContext::ingest(cyclic).is_err());
    // an ownerless node that is not a source unit
    let stray = AstPayload {
        nodes: vec![
            raw(1, NodeBody::SourceUnit { absolute_path: "a".to_string(), source: None, members: vec![] }),
            raw(2, NodeBody::Literal { value: "1".to_string() }),
        ],
    };
    assert!(WorkspaceContext::ingest(stray).is_err());
}

#[test]
fn location_resolution_counts_lines_and_cuts_snippets() {
    assert_eq!(resolve_location("hello\nworld\n", 6, 5), Some((2, "world".to_string())));
    assert_eq!(resolve_location("hello\nworld\n", 0, 5), Some((1, "hello".to_string())));
    // out of bounds: location unknown, not a failure
    assert_eq!(resolve_location("hello", 3, 10), None);
}

#[test]
fn capture_is_idempotent_per_key() {
    let ctx = small_context();
    let mut map = InstanceMap::new();
    map.capture(&ctx, 6);
    map.capture(&ctx, 6);
    assert_eq!(map.len(), 1);
    // a node with the same derived key (no locator, same unit) dedupes too
    map.capture(&ctx, 5);
    assert_eq!(map.len(), 1);
}
