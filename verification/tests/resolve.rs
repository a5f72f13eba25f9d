use trace_graph::model::{EdgeKind, WalkEntry};
use trace_graph::pipeline::build_index_store;
use trace_graph::resolve::{go, python, typescript, SourceFile};
use trace_graph::store::GraphStore;
use trace_graph::walk::collect_walk_entries;

fn store_of(files: &[(&str, &str)]) -> GraphStore {
    let raw: Vec<WalkEntry> = files
        .iter()
        .map(|(p, s)| WalkEntry { relative_path: p.to_string(), is_dir: false, size_bytes: Some(s.len() as u64) })
        .collect();
    let entries = collect_walk_entries(&raw);
    let sources: Vec<SourceFile> =
        files.iter().map(|(p, s)| SourceFile { relative_path: p.to_string(), source: s.to_string() }).collect();
    build_index_store(&entries, &sources).ok().expect("index")
}

#[test]
fn python_file_calls_resolve_through_imports() {
    let main = "from utils import format_message\n\n\ndef greet(name):\n    return format_message(name)\n";
    let utils = "def format_message(name):\n    return name\n";
    let store = store_of(&[("main.py", main), ("utils.py", utils)]);
    let edges = python::resolve_file(&store, "main.py", main).ok().expect("resolved");
    assert!(edges.iter().any(|e| e.kind == EdgeKind::Calls
        && e.from_id == "sym:main.py:function:greet:4"
        && e.to_id == "sym:utils.py:function:format_message:1"));
    assert!(edges.iter().any(|e| e.kind == EdgeKind::Imports));
}

#[test]
fn typescript_file_calls_resolve_through_imports() {
    let app = "import { helper } from './util';\n\nexport function run() {\n  return helper();\n}\n";
    let util = "export function helper() {\n  return 1;\n}\n";
    let store = store_of(&[("app.ts", app), ("util.ts", util)]);
    let edges = typescript::resolve_file(&store, "app.ts", app).ok().expect("resolved");
    assert!(edges.iter().any(|e| e.kind == EdgeKind::Calls && e.to_id.contains("util.ts") && e.to_id.contains("helper")));
}

#[test]
fn go_file_calls_resolve_across_files() {
    let main = "package main\n\nfunc main() {\n\thelper()\n}\n";
    let util = "package main\n\nfunc helper() {\n}\n";
    let store = store_of(&[("main.go", main), ("util.go", util)]);
    let go_files = vec![
        ("main.go".to_string(), main.to_string()),
        ("util.go".to_string(), util.to_string()),
    ];
    let edges = go::resolve_file(&store, "main.go", main, &go_files).ok().expect("resolved");
    assert!(edges.iter().any(|e| e.kind == EdgeKind::Calls && e.to_id.contains("util.go") && e.to_id.contains("helper")));
}

#[test]
fn go_file_with_no_calls_has_no_relations() {
    let util = "package main\n\nfunc helper() {\n}\n";
    let store = store_of(&[("util.go", util)]);
    let edges = go::resolve_file(&store, "util.go", util, &Vec::new()).ok().expect("resolved");
    assert!(edges.is_empty());
}
