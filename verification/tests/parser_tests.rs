use repo_graph::graph::{GraphOp, GraphSynchronizer};
use repo_graph::models::EntityType;
use repo_graph::parser::{CodeLanguage, DirEntry, Parser};
use repo_graph::treesitter::TreeSitterParser;
use repo_graph::watcher::default_ignore_patterns;

#[test]
fn language_is_selected_by_extension() {
    assert_eq!(
        CodeLanguage::from_extension(&"ts".to_string()),
        CodeLanguage::TypeScript
    );
    assert_eq!(
        CodeLanguage::from_extension(&"tsx".to_string()),
        CodeLanguage::Tsx
    );
    assert_eq!(
        CodeLanguage::from_extension(&"js".to_string()),
        CodeLanguage::JavaScript
    );
    assert_eq!(
        CodeLanguage::from_extension(&"jsx".to_string()),
        CodeLanguage::Jsx
    );
    assert_eq!(
        CodeLanguage::from_extension(&"py".to_string()),
        CodeLanguage::Unknown
    );
    // Extensions match without regard to letter case.
    assert_eq!(
        CodeLanguage::from_extension(&"TS".to_string()),
        CodeLanguage::TypeScript
    );
    assert_eq!(
        CodeLanguage::from_extension(&"Tsx".to_string()),
        CodeLanguage::Tsx
    );
    assert_eq!(
        CodeLanguage::from_extension(&"JS".to_string()),
        CodeLanguage::JavaScript
    );
}

#[test]
fn uppercase_extensions_reach_the_single_file_path() {
    let p = Parser::new();
    let fs = p
        .parse_single_file(
            &"a.TS".to_string(),
            &"export function foo() {}\n".to_string(),
            &"TS".to_string(),
        )
        .unwrap();
    assert_eq!(fs.items.len(), 1);
    assert_eq!(fs.items[0].id, "foo");
}

#[test]
fn dynamic_import_and_require_are_dependency_captures() {
    let p = Parser::new();
    let src = "const a = require(\"./dep\");\nasync function f() { await import(\"./lazy\"); }\nconst b = notrequire(\"./noise\");\n";
    let items = p
        .parse_file(
            &"repo/a.ts".to_string(),
            &src.to_string(),
            CodeLanguage::TypeScript,
        )
        .unwrap();
    let targets: Vec<&str> = items
        .iter()
        .filter(|e| e.entity_type == EntityType::Import)
        .map(|e| e.id.as_str())
        .collect();
    assert!(targets.contains(&"./dep"));
    assert!(targets.contains(&"./lazy"));
    assert!(!targets.contains(&"./noise"));
}

#[test]
fn parse_file_extracts_function_declaration() {
    let p = Parser::new();
    let items = p
        .parse_file(
            &"repo/index.ts".to_string(),
            &"export function foo(): number { return 1; }\n".to_string(),
            CodeLanguage::TypeScript,
        )
        .unwrap();
    assert_eq!(items.len(), 1);
    assert_eq!(items[0].id, "foo");
    assert_eq!(items[0].entity_type, EntityType::Function);
    assert_eq!(items[0].path, "repo/index.ts");
    assert_eq!(items[0].start_line, Some(1));
    assert_eq!(items[0].end_line, Some(1));
}

#[test]
fn parse_file_extracts_class_interface_method_and_import() {
    let p = Parser::new();
    let src = "import { x } from \"./dep\";\ninterface Shape { area(): number; }\nclass Circle {\n  area(): number { return 3; }\n}\n";
    let items = p
        .parse_file(
            &"repo/a.ts".to_string(),
            &src.to_string(),
            CodeLanguage::TypeScript,
        )
        .unwrap();
    let kinds: Vec<EntityType> = items.iter().map(|e| e.entity_type).collect();
    assert!(kinds.contains(&EntityType::Import));
    assert!(kinds.contains(&EntityType::Interface));
    assert!(kinds.contains(&EntityType::Class));
    assert!(kinds.contains(&EntityType::Method));
    let import = items
        .iter()
        .find(|e| e.entity_type == EntityType::Import)
        .unwrap();
    assert_eq!(import.id, "./dep");
    assert_eq!(
        import.properties,
        vec![("target".to_string(), "./dep".to_string())]
    );
    let class = items
        .iter()
        .find(|e| e.entity_type == EntityType::Class)
        .unwrap();
    assert_eq!(class.id, "Circle");
    assert_eq!(class.start_line, Some(3));
}

#[test]
fn parsing_unchanged_text_is_deterministic() {
    let p = Parser::new();
    let src = "export function foo() {}\nconst bar = () => 2;\n".to_string();
    let a = p
        .parse_file(&"x.ts".to_string(), &src, CodeLanguage::TypeScript)
        .unwrap();
    let b = p
        .parse_file(&"x.ts".to_string(), &src, CodeLanguage::TypeScript)
        .unwrap();
    assert_eq!(a.len(), b.len());
    for (ea, eb) in a.iter().zip(b.iter()) {
        assert_eq!(ea.id, eb.id);
        assert_eq!(ea.start_line, eb.start_line);
        assert_eq!(ea.end_line, eb.end_line);
    }
}

#[test]
fn unknown_language_is_rejected() {
    let p = Parser::new();
    assert!(p
        .parse_file(
            &"a.py".to_string(),
            &"def f(): pass".to_string(),
            CodeLanguage::Unknown
        )
        .is_err());
}

#[test]
fn parse_single_file_only_accepts_typescript() {
    let p = Parser::new();
    assert!(p
        .parse_single_file(&"a.js".to_string(), &"var x = 1;".to_string(), &"js".to_string())
        .is_err());
    let fs = p
        .parse_single_file(&"a.ts".to_string(), &"".to_string(), &"ts".to_string())
        .unwrap();
    assert_eq!(fs.file_path, "a.ts");
    assert_eq!(fs.structure_type, "file_structure");
    assert!(fs.items.is_empty());
    // The md5 digest of empty content.
    assert_eq!(fs.file_hash, "d41d8cd98f00b204e9800998ecf8427e");
}

#[test]
fn directory_scan_builds_nodes_and_links() {
    let p = Parser::new();
    let entries = vec![
        DirEntry {
            path: "repo".to_string(),
            is_dir: true,
            content: String::new(),
        },
        DirEntry {
            path: "repo/index.ts".to_string(),
            is_dir: false,
            content: "export function foo(): number { return 1; }\n".to_string(),
        },
        DirEntry {
            path: "repo/util.ts".to_string(),
            is_dir: false,
            content: "import { foo } from \"./index\";\n".to_string(),
        },
    ];
    let patterns = default_ignore_patterns();
    let (nodes, links) = p.parse_and_ingest_directory(&entries, &patterns);
    let file_count = nodes
        .iter()
        .filter(|n| n.entity_type == EntityType::File)
        .count();
    let fn_count = nodes
        .iter()
        .filter(|n| n.entity_type == EntityType::Function)
        .count();
    assert_eq!(file_count, 2);
    assert_eq!(fn_count, 1);
    // The import resolved against the known file list.
    assert!(links.iter().any(|l| l.from_name == "repo/util.ts"
        && l.to_name == "repo/index.ts"
        && matches!(l.link_type, repo_graph::models::LinkType::Import)));
    assert!(links.iter().any(|l| l.from_name == "repo/index.ts"
        && l.to_name == "foo"
        && matches!(l.link_type, repo_graph::models::LinkType::Has)));
}

#[test]
fn directory_scan_never_touches_ignored_paths() {
    let p = Parser::new();
    let entries = vec![
        DirEntry {
            path: "repo/node_modules/dep/index.ts".to_string(),
            is_dir: false,
            content: "export function hidden() {}\n".to_string(),
        },
        DirEntry {
            path: "repo/a.ts".to_string(),
            is_dir: false,
            content: "export function visible() {}\n".to_string(),
        },
    ];
    let patterns = default_ignore_patterns();
    let (nodes, links) = p.parse_and_ingest_directory(&entries, &patterns);
    assert!(nodes.iter().all(|n| !n.path.contains("node_modules")));
    assert!(links.iter().all(|l| !l.from_name.contains("node_modules")));
    assert!(nodes.iter().any(|n| n.id == "visible"));
    assert!(nodes.iter().all(|n| n.id != "hidden"));
}

#[test]
fn treesitter_parser_reports_declarations() {
    let p = TreeSitterParser::new();
    let src = "interface Shape { area(): number; }\nclass Circle {}\nfunction f() {}\n";
    let fs = p
        .parse_file(&"repo/a.ts".to_string(), &src.to_string())
        .unwrap();
    assert_eq!(fs.path, "repo/a.ts");
    let kinds: Vec<&str> = fs.items.iter().map(|i| i.kind.as_str()).collect();
    assert_eq!(kinds, vec!["interface", "class", "function"]);
    let names: Vec<&str> = fs.items.iter().map(|i| i.name.as_str()).collect();
    assert_eq!(names, vec!["Shape", "Circle", "f"]);
    assert!(p
        .parse_file(&"repo/a.py".to_string(), &"x = 1".to_string())
        .is_err());
}


#[test]
fn anonymous_default_exports_become_entities() {
    let p = Parser::new();
    let src = "export default function () { return 1; }\n";
    let items = p
        .parse_file(
            &"repo/main.ts".to_string(),
            &src.to_string(),
            CodeLanguage::TypeScript,
        )
        .unwrap();
    assert_eq!(items.len(), 1);
    assert_eq!(items[0].entity_type, EntityType::Function);
    assert_eq!(items[0].id, "");
    assert_eq!(items[0].start_line, Some(1));
}

#[test]
fn anonymous_default_export_gets_a_synthesized_key() {
    let p = Parser::new();
    let s = GraphSynchronizer::new("repo-id".to_string(), "owner-id".to_string());
    let fs = p
        .parse_single_file(
            &"repo/main.ts".to_string(),
            &"export default class { }\n".to_string(),
            &"ts".to_string(),
        )
        .unwrap();
    assert_eq!(fs.items.len(), 1);
    assert_eq!(fs.items[0].id, "");
    let plan = s.process_file_structure(&fs);
    // The nameless declaration merges under a stable synthesized key.
    assert!(plan.iter().any(|op| matches!(
        op,
        GraphOp::MergeNode { key, .. } if key == "class:main.ts"
    )));
}
