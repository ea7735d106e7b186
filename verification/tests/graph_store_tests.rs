use repo_graph::graph::{GraphOp, GraphSynchronizer};
use repo_graph::models::{CodeEntity, EntityType, LinkEntity, LinkType};
use repo_graph::parser::{DirEntry, Parser};
use repo_graph::store::GraphStore;
use repo_graph::watcher::default_ignore_patterns;

fn sync() -> GraphSynchronizer {
    GraphSynchronizer::new("repo-id".to_string(), "owner-id".to_string())
}

fn entity(id: &str, path: &str, kind: EntityType) -> CodeEntity {
    CodeEntity {
        id: id.to_string(),
        path: path.to_string(),
        entity_type: kind,
        start_line: None,
        end_line: None,
        properties: Vec::new(),
        children: None,
    }
}

/// Runs the full pipeline of a repository scan into the model store.
fn scan_into_store(entries: &Vec<DirEntry>) -> GraphStore {
    let p = Parser::new();
    let s = sync();
    let patterns = default_ignore_patterns();
    let (nodes, links) = p.parse_and_ingest_directory(entries, &patterns);
    let mut store = GraphStore::new();
    store.apply_all(&s.batch_ingest_entities(&nodes));
    store.apply_all(&s.batch_create_links(&links));
    store
}

fn two_file_repo() -> Vec<DirEntry> {
    vec![
        DirEntry {
            path: "repo".to_string(),
            is_dir: true,
            content: String::new(),
        },
        DirEntry {
            path: "repo/index.ts".to_string(),
            is_dir: false,
            content: "export function foo(): number { return 1; }\n".to_string(),
        },
        DirEntry {
            path: "repo/util.ts".to_string(),
            is_dir: false,
            content: "import { foo } from \"./index\";\n".to_string(),
        },
    ]
}

#[test]
fn new_repository_scan_yields_expected_graph() {
    let store = scan_into_store(&two_file_repo());
    assert_eq!(store.label_count(EntityType::File), 2);
    assert_eq!(store.label_count(EntityType::Function), 1);
    assert!(store.has_node(&"foo".to_string()));
    assert!(store.has_edge(
        &"repo/index.ts".to_string(),
        &"foo".to_string(),
        LinkType::Has
    ));
    assert!(store.has_edge(
        &"repo/util.ts".to_string(),
        &"repo/index.ts".to_string(),
        LinkType::Import
    ));
}

#[test]
fn rescanning_unchanged_repo_adds_nothing() {
    let p = Parser::new();
    let s = sync();
    let patterns = default_ignore_patterns();
    let entries = two_file_repo();
    let (nodes, links) = p.parse_and_ingest_directory(&entries, &patterns);
    let node_ops = s.batch_ingest_entities(&nodes);
    let link_ops = s.batch_create_links(&links);
    let mut store = GraphStore::new();
    store.apply_all(&node_ops);
    store.apply_all(&link_ops);
    let nodes_before = store.node_count();
    let edges_before = store.edge_count();
    // Replaying the very same scan hits only the merge branches.
    let (nodes2, links2) = p.parse_and_ingest_directory(&entries, &patterns);
    store.apply_all(&s.batch_ingest_entities(&nodes2));
    store.apply_all(&s.batch_create_links(&links2));
    assert_eq!(store.node_count(), nodes_before);
    assert_eq!(store.edge_count(), edges_before);
}

#[test]
fn replaying_a_file_plan_is_idempotent() {
    let p = Parser::new();
    let s = sync();
    let fs = p
        .parse_single_file(
            &"repo/index.ts".to_string(),
            &"export function foo() {}\n".to_string(),
            &"ts".to_string(),
        )
        .unwrap();
    let plan = s.process_file_structure(&fs);
    let mut store = GraphStore::new();
    store.apply_all(&plan);
    let n = store.node_count();
    let e = store.edge_count();
    let plan_again = s.process_file_structure(&fs);
    store.apply_all(&plan_again);
    assert_eq!(store.node_count(), n);
    assert_eq!(store.edge_count(), e);
}

#[test]
fn removing_a_file_deletes_it_and_its_entities_only() {
    let p = Parser::new();
    let s = sync();
    let index = p
        .parse_single_file(
            &"repo/index.ts".to_string(),
            &"export function foo(): number { return 1; }\n".to_string(),
            &"ts".to_string(),
        )
        .unwrap();
    let util = p
        .parse_single_file(
            &"repo/util.ts".to_string(),
            &"import { foo } from \"./index\";\n".to_string(),
            &"ts".to_string(),
        )
        .unwrap();
    let mut store = GraphStore::new();
    store.apply_all(&s.process_file_structure(&index));
    store.apply_all(&s.process_file_structure(&util));
    assert!(store.file_exists(&"repo/util.ts".to_string()));
    assert!(store.has_node(&"./index".to_string()));

    store.apply(&s.remove_file(&"repo/util.ts".to_string()));
    // The file node and the entity it contained are gone.
    assert!(!store.file_exists(&"repo/util.ts".to_string()));
    assert!(!store.has_node(&"./index".to_string()));
    // The other file and its function survive, edges intact.
    assert!(store.file_exists(&"repo/index.ts".to_string()));
    assert!(store.has_node(&"foo".to_string()));
    assert!(store.has_edge(
        &"repo/index.ts".to_string(),
        &"foo".to_string(),
        LinkType::Has
    ));
}

#[test]
fn rename_keeps_node_identity_and_edges() {
    let s = sync();
    let mut store = GraphStore::new();
    let mut ops: Vec<GraphOp> = Vec::new();
    ops.push(s.ingest_entity(&entity("", "repo", EntityType::Directory)));
    ops.push(s.ingest_entity(&entity("", "repo/a.ts", EntityType::File)));
    ops.push(s.create_relationship(&"repo".to_string(), &"repo/a.ts".to_string(), LinkType::Owns));
    store.apply_all(&ops);
    assert!(store.has_edge(&"repo".to_string(), &"repo/a.ts".to_string(), LinkType::Owns));

    let rename = s.update_file_path(&"repo/a.ts".to_string(), &"repo/b.ts".to_string());
    store.apply_all(&rename);
    // Unreachable at the old path, reachable at the new one.
    assert!(!store.has_node(&"repo/a.ts".to_string()));
    assert!(store.file_exists(&"repo/b.ts".to_string()));
    // The pre-existing containment edge survived the rename because the
    // node kept its identity.
    assert!(store.has_edge(&"repo".to_string(), &"repo/b.ts".to_string(), LinkType::Owns));
    // The rename also refreshed the directory containment edge.
    assert!(store.has_edge(&"repo".to_string(), &"repo/b.ts".to_string(), LinkType::Has));
    assert_eq!(store.node_count(), 2);
    assert_eq!(store.edge_count(), 2);
}

#[test]
fn schema_ops_and_registration_are_idempotent() {
    let s = sync();
    let mut store = GraphStore::new();
    store.apply_all(&s.ensure_schema());
    store.apply_all(&s.ensure_schema());
    assert_eq!(store.node_count(), 0);
    store.apply(&s.register_repository(&"repo".to_string()));
    store.apply(&s.register_repository(&"repo".to_string()));
    assert_eq!(store.node_count(), 1);
    assert_eq!(store.label_count(EntityType::Directory), 1);
}

#[test]
fn edges_require_both_endpoints() {
    let s = sync();
    let mut store = GraphStore::new();
    store.apply(&s.ingest_entity(&entity("", "repo/a.ts", EntityType::File)));
    store.apply(&s.create_db_link(&LinkEntity {
        from_name: "repo/a.ts".to_string(),
        to_name: "missing".to_string(),
        link_type: LinkType::Uses,
    }));
    assert_eq!(store.edge_count(), 0);
}

#[test]
fn ignored_paths_never_reach_the_graph() {
    let mut entries = two_file_repo();
    entries.push(DirEntry {
        path: "repo/node_modules/dep/x.ts".to_string(),
        is_dir: false,
        content: "export function sneaky() {}\n".to_string(),
    });
    let store = scan_into_store(&entries);
    assert!(!store.file_exists(&"repo/node_modules/dep/x.ts".to_string()));
    assert!(!store.has_node(&"sneaky".to_string()));
    assert_eq!(store.label_count(EntityType::File), 2);
}

#[test]
fn entity_keys_follow_the_identity_rule() {
    let s = sync();
    // Path-keyed kinds merge on their path.
    match s.ingest_entity(&entity("some-id", "repo/a.ts", EntityType::File)) {
        GraphOp::MergeNode { key, .. } => assert_eq!(key, "repo/a.ts"),
        _ => panic!("expected a node merge"),
    }
    // Declarations keep their given id.
    match s.ingest_entity(&entity("foo", "repo/a.ts", EntityType::Function)) {
        GraphOp::MergeNode { key, .. } => assert_eq!(key, "foo"),
        _ => panic!("expected a node merge"),
    }
    // A missing id is synthesized from kind and basename.
    match s.ingest_entity(&entity("", "repo/a.ts", EntityType::Function)) {
        GraphOp::MergeNode { key, .. } => assert_eq!(key, "function:a.ts"),
        _ => panic!("expected a node merge"),
    }
}

#[test]
fn match_entity_type_names_labels() {
    let s = sync();
    assert_eq!(s.match_entity_type(&EntityType::File), "File");
    assert_eq!(s.match_entity_type(&EntityType::Directory), "Directory");
    assert_eq!(s.match_entity_type(&EntityType::Function), "Function");
    assert_eq!(s.match_entity_type(&EntityType::Import), "Import");
}


#[test]
fn replaying_a_whole_batch_is_idempotent() {
    let p = Parser::new();
    let s = sync();
    // util.ts stands before the index.ts it imports: the batch plan still
    // resolves the cross-file edge, because every node precedes any edge.
    let util = p
        .parse_single_file(
            &"repo/util.ts".to_string(),
            &"import { foo } from \"./index\";\n".to_string(),
            &"ts".to_string(),
        )
        .unwrap();
    let index = p
        .parse_single_file(
            &"repo/index.ts".to_string(),
            &"export function foo(): number { return 1; }\n".to_string(),
            &"ts".to_string(),
        )
        .unwrap();
    let batch = vec![util, index];
    let plan = s.batch_process_file_structures(&batch);
    let mut store = GraphStore::new();
    store.apply_all(&plan);
    let n = store.node_count();
    let e = store.edge_count();
    assert!(store.has_edge(
        &"repo/util.ts".to_string(),
        &"./index".to_string(),
        LinkType::Import
    ));
    let plan_again = s.batch_process_file_structures(&batch);
    store.apply_all(&plan_again);
    assert_eq!(store.node_count(), n);
    assert_eq!(store.edge_count(), e);
}
