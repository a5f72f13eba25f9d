use trace_graph::store::GraphStore;
use trace_graph::model::{Tier, WalkEntry, NodeKind, EdgeKind};
use trace_graph::pipeline::{index, index_with_options, build_index_store, export_graph_json, IndexOptions};
use trace_graph::walk::detect_language;
use trace_graph::resolve::SourceFile;
use trace_graph::walk::collect_walk_entries;
use std::collections::BTreeMap;

/// The walk entries and readable files of a repository holding `files`.
fn repo(files: &[(&str, &str)]) -> (Vec<WalkEntry>, Vec<SourceFile>) {
    let raw: Vec<WalkEntry> = files
        .iter()
        .map(|(p, s)| WalkEntry { relative_path: p.to_string(), is_dir: false, size_bytes: Some(s.len() as u64) })
        .collect();
    let entries = collect_walk_entries(&raw);
    let sources = entries
        .iter()
        .filter(|e| !e.is_dir)
        .map(|e| SourceFile {
            relative_path: e.relative_path.clone(),
            source: files.iter().find(|(p, _)| *p == e.relative_path).unwrap().1.to_string(),
        })
        .collect();
    (entries, sources)
}

fn unknown_extensions() -> (Vec<WalkEntry>, Vec<SourceFile>) {
    repo(&[("data.xyz", "opaque\n"), ("blob.dat", "bytes\n"), ("notes.txt", "plain text\n")])
}

fn python_simple() -> (Vec<WalkEntry>, Vec<SourceFile>) {
    repo(&[
        ("main.py", "from utils import format_message\n\n\ndef greet(name: str) -> str:\n    return format_message(name)\n"),
        ("utils.py", "def format_message(name: str) -> str:\n    return \"Hello, \" + name\n"),
    ])
}

#[test]
fn indexes_fixture_in_memory() {
    let (entries, files) = unknown_extensions();
    let result = index(&entries, &files).ok().expect("fixture indexes");
    assert!(result.file_count >= 3);
    assert!(result.unknown_extension_count >= 2);
    assert_eq!(result.symbol_count, 0);
}

#[test]
fn python_simple_has_symbols() {
    let (entries, files) = python_simple();
    let result = index(&entries, &files).ok().expect("index");
    assert!(result.symbol_count >= 3);
    let python = result.capabilities.languages.iter().find(|l| l.id == "python").expect("python capability");
    assert_eq!(python.tier, Tier::L2);
}

#[test]
fn indexes_unknown_extensions_without_error() {
    let (entries, files) = unknown_extensions();
    let result = index(&entries, &files).ok().expect("any repo must index without error");
    assert!(result.file_count >= 3, "expected at least 3 files, got {}", result.file_count);
    assert!(result.unknown_extension_count >= 2, "expected unknown extensions to be counted");
    let langs: BTreeMap<_, _> = result.capabilities.languages.iter().map(|l| (l.id.as_str(), l.files)).collect();
    assert_eq!(langs.get("unknown"), Some(&2));
    assert_eq!(langs.get("text"), Some(&1));
    assert!(!langs.contains_key("ignored"), "gitignored files must not appear");
    for lang in &result.capabilities.languages {
        assert_eq!(lang.tier, Tier::L0);
    }
}

#[test]
fn indexes_universal_mixed_polyglot() {
    let (entries, files) = repo(&[
        ("backend/app.py", "def main():\n    print(\"hi\")\n"),
        ("web/index.ts", "export function hello(): number {\n  return 1;\n}\n"),
        ("svc/main.go", "package main\n\nfunc main() {\n}\n"),
        ("README.md", "# mixed\n"),
    ]);
    let result = index(&entries, &files).ok().expect("polyglot repo must index");
    let ids: BTreeMap<_, _> = result.capabilities.languages.iter().map(|l| (l.id.as_str(), (l.files, l.tier))).collect();
    assert!(ids.get("python").map(|(f, _)| *f).unwrap_or(0) >= 1);
    assert!(ids.get("typescript").map(|(f, _)| *f).unwrap_or(0) >= 1);
    assert!(ids.get("go").map(|(f, _)| *f).unwrap_or(0) >= 1);
    assert_eq!(ids.get("python").map(|(_, t)| *t), Some(Tier::L1));
    assert_eq!(ids.get("go").map(|(_, t)| *t), Some(Tier::L1));
}

#[test]
fn indexes_ruby_scripts_at_l1() {
    let (entries, files) = repo(&[("scripts/hello.rb", "def greet(name)\n  puts \"hi #{name}\"\nend\n")]);
    let result = index(&entries, &files).ok().expect("ruby fixture indexes");
    assert!(result.symbol_count >= 1);
    let ruby = result.capabilities.languages.iter().find(|l| l.id == "ruby").expect("ruby capability");
    assert_eq!(ruby.tier, Tier::L1);
}

#[test]
fn go_service_resolves_calls_at_l2() {
    let (entries, files) = repo(&[(
        "main.go",
        "package main\n\nfunc main() {\n\thelper()\n}\n\nfunc helper() {\n}\n",
    )]);
    let result = index(&entries, &files).ok().expect("go index");
    let go = result.capabilities.languages.iter().find(|l| l.id == "go").expect("go");
    assert_eq!(go.tier, Tier::L2);
}

#[test]
fn rust_crate_resolves_calls_at_l2() {
    let (entries, files) = repo(&[("src/main.rs", "fn main() {\n    helper();\n}\n\nfn helper() {}\n")]);
    let result = index(&entries, &files).ok().expect("rust index");
    let rust = result.capabilities.languages.iter().find(|l| l.id == "rust").expect("rust");
    assert_eq!(rust.tier, Tier::L2);
}

#[test]
fn typescript_express_resolves_calls_at_l2() {
    let (entries, files) = repo(&[(
        "src/server.ts",
        "function helper(): number {\n  return 1;\n}\n\nexport function main(): number {\n  return helper();\n}\n",
    )]);
    let result = index(&entries, &files).ok().expect("ts index");
    let ts = result.capabilities.languages.iter().find(|l| l.id == "typescript").expect("typescript");
    assert_eq!(ts.tier, Tier::L2);
}

#[test]
fn swift_simple_resolves_calls_at_l2() {
    let (entries, files) = repo(&[(
        "Sources/main.swift",
        "func greet() -> String {\n    return formatMessage()\n}\n\nfunc formatMessage() -> String {\n    return \"hi\"\n}\n",
    )]);
    let result = index(&entries, &files).ok().expect("swift index");
    let swift = result.capabilities.languages.iter().find(|l| l.id == "swift").expect("swift");
    assert_eq!(swift.tier, Tier::L2);
}

#[test]
fn index_with_options_keeps_database_path() {
    let (entries, files) = python_simple();
    let options = IndexOptions::with_repo_default_db("/repo");
    assert_eq!(options.database_path.as_deref(), Some("/repo/.graph/index.db"));
    let result = index_with_options(&entries, &files, options).ok().expect("index");
    assert_eq!(result.database_path.as_deref(), Some("/repo/.graph/index.db"));
    assert_eq!(result.file_count, 2);
}

#[test]
fn default_db_path_joins_without_doubling_separator() {
    let options = IndexOptions::with_repo_default_db("/repo/");
    assert_eq!(options.database_path.as_deref(), Some("/repo/.graph/index.db"));
    let options = IndexOptions::with_repo_default_db("");
    assert_eq!(options.database_path.as_deref(), Some(".graph/index.db"));
}

#[test]
fn python_simple_store_has_call_edge() {
    let (entries, files) = python_simple();
    let store = build_index_store(&entries, &files).ok().expect("store");
    let edges = store.list_edges();
    assert!(edges.iter().any(|e| e.kind == EdgeKind::Calls
        && e.from_id == "sym:main.py:function:greet:4"
        && e.to_id == "sym:utils.py:function:format_message:1"));
    let nodes = store.list_nodes();
    assert!(nodes.iter().any(|n| n.kind == NodeKind::Import && n.parent_file.as_deref() == Some("main.py")));
}

#[test]
fn unknown_extensions_map_correctly() {
    assert_eq!(detect_language("a.xyz"), "unknown");
    assert_eq!(detect_language("a.dat"), "unknown");
    assert_eq!(detect_language("a.txt"), "text");
    assert_eq!(detect_language("main.py"), "python");
}

#[test]
fn resolves_python_simple_call_chain() {
    let (entries, files) = python_simple();
    let result = index(&entries, &files).ok().expect("index");
    let python = result.capabilities.languages.iter().find(|l| l.id == "python").expect("python");
    assert_eq!(python.tier, Tier::L2);

    let json = export_graph_json(&entries, &files).ok().expect("export");
    let graph: serde_json::Value = serde_json::from_str(&json).unwrap();
    let edges = graph.get("edges").and_then(|e| e.as_array()).expect("edges");
    let calls: Vec<_> = edges
        .iter()
        .filter(|e| e.get("kind").and_then(|k| k.as_str()) == Some("CALLS"))
        .collect();
    assert!(
        calls.iter().any(|e| {
            e.get("from").and_then(|v| v.as_str()).unwrap_or("").contains("greet")
                && e.get("to").and_then(|v| v.as_str()).unwrap_or("").contains("format_message")
        }),
        "expected greet -> format_message CALLS edge"
    );
}

#[test]
fn capability_file_counts_add_up_to_the_file_count() {
    let (entries, files) = repo(&[
        ("a.py", "def f():\n    pass\n"),
        ("b.py", "def g():\n    pass\n"),
        ("c.go", "package main\n\nfunc main() {\n}\n"),
        ("notes.txt", "plain\n"),
    ]);
    let result = index(&entries, &files).ok().expect("index");
    let total: usize = result.capabilities.languages.iter().map(|l| l.files).sum();
    assert_eq!(total, result.file_count);
    assert_eq!(result.file_count, 4);
}

#[test]
fn walk_entries_take_their_languages_from_the_language_function() {
    let (entries, _) = repo(&[("a.py", "x\n"), ("b.zz", "y\n"), ("d/c.py", "z\n")]);
    let mut store = GraphStore::open_in_memory();
    let (files, unknown) = store.insert_walk_entries(&entries, |e: &WalkEntry| -> &'static str {
        if e.relative_path.ends_with(".py") { "snake" } else { "unknown" }
    });
    assert_eq!(files, 3);
    assert_eq!(unknown, 1);
    let nodes = store.all_nodes();
    let a = nodes.iter().find(|n| n.relative_path == "a.py").expect("a.py");
    assert_eq!(a.language_id, "snake");
    let d = nodes.iter().find(|n| n.relative_path == "d").expect("d");
    assert_eq!(d.language_id, "directory");
    assert!(store.all_edges().iter().any(|e| e.kind == EdgeKind::Contains && e.to_id.contains("d/c.py")));
}

#[test]
fn walks_list_every_reported_path() {
    let raw = vec![
        WalkEntry { relative_path: "target/debug/app".into(), is_dir: false, size_bytes: Some(4) },
        WalkEntry { relative_path: "src/main.rs".into(), is_dir: false, size_bytes: Some(9) },
    ];
    let entries = collect_walk_entries(&raw);
    let paths: Vec<&str> = entries.iter().map(|e| e.relative_path.as_str()).collect();
    assert_eq!(paths, vec![".", "src", "src/main.rs", "target", "target/debug", "target/debug/app"]);
}
