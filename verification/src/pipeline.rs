//! Indexing a repository: its walk entries and the text of its files in, a
//! filled graph store and a summary of it out.
use vstd::prelude::*;
use crate::cfg::uncuttable_file;
use crate::export::{ExportGraph, exported, graph_json};
use crate::model::{Capabilities, ExtractedSymbol, GraphNode, IndexError, NodeKind, ResolvedEdge, WalkEntry};
use crate::store::{GraphStore, capabilities_of};
use crate::ingest::{walk_inserted, symbols_inserted, relations_inserted, languages_of};
use crate::extract::{file_extraction, extract_file};
use crate::resolve::{SourceFile, edge_views, relations_resolved, resolve_relations, join_path, join_chars};
use crate::framework::{framework_resolved, resolve_framework};
use crate::cfg::{cfg_resolved, resolve_cfg};
use crate::walk::{detect_language, language_of_path};
use crate::text::{chars_of, string_of, str_eq};

verus! {

/// What indexing a repository found.
pub struct IndexResult {
    pub file_count: usize,
    pub unknown_extension_count: usize,
    pub symbol_count: usize,
    pub capabilities: Capabilities,
    pub database_path: Option<String>,
}

/// How to index.
pub struct IndexOptions {
    /// When set, the index is saved to this SQLite file; otherwise it lives in memory only.
    pub database_path: Option<String>,
}

impl Default for IndexOptions {
    fn default() -> (r: Self)
        ensures
            r.database_path is None,
    {
        IndexOptions { database_path: None }
    }
}

impl IndexOptions {
    /// Options that save the index under `.graph/index.db` in the repository.
    pub fn with_repo_default_db(repo_root: &str) -> (r: Self)
        ensures
            match r.database_path {
                Some(p) => p@ == join_path(repo_root@, ".graph/index.db"@),
                None => false,
            },
    {
        let joined = join_chars(&chars_of(repo_root), &chars_of(".graph/index.db"));
        IndexOptions { database_path: Some(string_of(&joined)) }
    }
}

/// `per` holds, file by file, symbols that extraction may give for it in
/// the language of its path.
pub open spec fn files_extracted(files: Seq<SourceFile>, per: Seq<Seq<ExtractedSymbol>>) -> bool {
    &&& per.len() == files.len()
    &&& forall|i: int|
        0 <= i < files.len() ==> #[trigger] file_extraction(
            language_of_path(files[i].relative_path@),
            files[i].relative_path@,
            files[i].source@,
            per[i],
        )
}

/// The stages of indexing, from the walk to the control-flow branches:
/// `s0` holds the walk entries, `s1` adds the extracted symbols, `s2` their
/// relations, `s3` the framework symbols, `s4` the framework edges, `s5`
/// the branches and `s6` the branch edges.
pub open spec fn index_stages(
    entries: Seq<WalkEntry>,
    files: Seq<SourceFile>,
    s0: GraphStore,
    s1: GraphStore,
    s2: GraphStore,
    s3: GraphStore,
    s4: GraphStore,
    s5: GraphStore,
    s6: GraphStore,
) -> bool {
    &&& exists|langs: Seq<Seq<char>>| #[trigger] walk_inserted(s0, entries, langs) && paths_languages(entries, langs)
    &&& exists|per: Seq<Seq<ExtractedSymbol>>| #[trigger] files_extracted(files, per) && symbols_inserted(s0, s1, per.flatten())
    &&& exists|rels: Seq<ResolvedEdge>|
        #[trigger] relations_resolved(s1.node_rows(), files, edge_views(rels)) && relations_inserted(s1, s2, rels)
    &&& exists|fw: Seq<ResolvedEdge>| #[trigger] framework_resolved(s2, s3, files, edge_views(fw)) && relations_inserted(s3, s4, fw)
    &&& exists|cf: Seq<ResolvedEdge>| #[trigger] cfg_resolved(s4, s5, files, edge_views(cf)) && relations_inserted(s5, s6, cf)
}

/// `langs` holds the language of each file entry's path.
pub open spec fn paths_languages(entries: Seq<WalkEntry>, langs: Seq<Seq<char>>) -> bool {
    &&& langs.len() == entries.len()
    &&& forall|i: int| 0 <= i < entries.len() && !entries[i].is_dir ==> langs[i] == language_of_path(#[trigger] entries[i].relative_path@)
}

/// Indexes the walk `entries` of a repository and the text of its readable
/// files (`files`, in walk order) into a new in-memory store. It fails, with
/// a parse error, only for a Python file with an `if` condition that cannot
/// be cut.
pub fn build_index_store(entries: &Vec<WalkEntry>, files: &Vec<SourceFile>) -> (r: Result<GraphStore, IndexError>)
    ensures
        match r {
            Ok(s) => s.wf() && exists|s0: GraphStore, s1: GraphStore, s2: GraphStore, s3: GraphStore, s4: GraphStore, s5: GraphStore|
                #[trigger] index_stages(entries@, files@, s0, s1, s2, s3, s4, s5, s),
            Err(e) => e is Parse && exists|i: int| 0 <= i < files@.len() && #[trigger] uncuttable_file(files@[i]),
        },
{
    let mut store = GraphStore::open_in_memory();
    let language_for = |e: &WalkEntry| -> (l: &'static str)
        ensures
            l@ == language_of_path(e.relative_path@),
    {
        detect_language(e.relative_path.as_str())
    };
    store.insert_walk_entries(entries, language_for);
    let ghost s0 = store;
    proof {
        let langs = choose|langs: Seq<Seq<char>>|
            #[trigger] languages_of(language_for, entries@, langs) && walk_inserted(s0, entries@, langs);
        assert forall|i: int| 0 <= i < entries@.len() && !entries@[i].is_dir implies langs[i] == language_of_path(#[trigger] entries@[i].relative_path@) by {
            let l = choose|l: &'static str| #[trigger] language_for.ensures((&entries@[i],), l) && l@ == langs[i];
        }
        assert(paths_languages(entries@, langs));
    }

    let ghost mut per: Seq<Seq<ExtractedSymbol>> = Seq::empty();
    let mut all: Vec<ExtractedSymbol> = Vec::new();
    let mut i: usize = 0;
    while i < files.len()
        invariant
            i <= files.len(),
            per.len() == i,
            forall|k: int|
                0 <= k < i ==> #[trigger] file_extraction(
                    language_of_path(files@[k].relative_path@),
                    files@[k].relative_path@,
                    files@[k].source@,
                    per[k],
                ),
            all@ == per.flatten(),
        decreases files.len() - i,
    {
        let f = &files[i];
        let lang = detect_language(f.relative_path.as_str());
        let mut syms = extract_file(lang, f.source.as_str(), f.relative_path.as_str());
        let ghost got = syms@;
        let ghost a0 = all@;
        all.append(&mut syms);
        proof {
            per.lemma_flatten_push(got);
            per = per.push(got);
            assert(all@ =~= per.flatten());
        }
        i += 1;
    }
    assert(files_extracted(files@, per));
    store.insert_symbols(&all);
    let ghost s1 = store;

    let rels = resolve_relations(&store, files);
    store.insert_relations(&rels);
    let ghost s2 = store;
    assert(relations_resolved(s1.node_rows(), files@, edge_views(rels@)));

    let fw = match resolve_framework(&mut store, files) {
        Ok(v) => v,
        Err(_) => Vec::new(),
    };
    let ghost s3 = store;
    assert(framework_resolved(s2, s3, files@, edge_views(fw@)));
    store.insert_relations(&fw);
    let ghost s4 = store;

    let cf = match resolve_cfg(&mut store, files) {
        Ok(v) => v,
        Err(e) => {
            return Err(e);
        },
    };
    let ghost s5 = store;
    assert(cfg_resolved(s4, s5, files@, edge_views(cf@)));
    store.insert_relations(&cf);
    assert(index_stages(entries@, files@, s0, s1, s2, s3, s4, s5, store));
    Ok(store)
}

/// A file node whose language is unknown.
pub open spec fn is_unknown_file(n: GraphNode) -> bool {
    n.kind == NodeKind::File && n.language_id@ == "unknown"@
}

pub open spec fn unknown_file() -> spec_fn(GraphNode) -> bool {
    |n: GraphNode| is_unknown_file(n)
}

/// The summary of an indexed store.
pub fn finalize_index_result(store: &GraphStore, database_path: Option<String>) -> (r: IndexResult)
    ensures
        r.file_count == store.node_rows().filter(|n: GraphNode| n.kind == NodeKind::File).len(),
        r.unknown_extension_count == store.node_rows().filter(unknown_file()).len(),
        r.symbol_count == store.node_rows().filter(|n: GraphNode| n.kind.symbol_kind()).len(),
        capabilities_of(store.node_rows(), store.edge_rows(), r.capabilities.languages@),
        r.database_path == database_path,
{
    let nodes = store.all_nodes();
    let ghost rows = store.node_rows();
    let mut unknown: usize = 0;
    let mut i: usize = 0;
    while i < nodes.len()
        invariant
            i <= nodes.len(),
            nodes@ == rows,
            unknown == rows.take(i as int).filter(unknown_file()).len(),
            unknown <= i,
        decreases nodes.len() - i,
    {
        proof {
            crate::store::lemma_filter_step(rows, unknown_file(), i as int);
        }
        if nodes[i].kind == NodeKind::File && str_eq(nodes[i].language_id.as_str(), "unknown") {
            unknown += 1;
        }
        i += 1;
    }
    assert(rows.take(nodes.len() as int) =~= rows);
    IndexResult {
        file_count: store.file_count(),
        unknown_extension_count: unknown,
        symbol_count: store.symbol_count(),
        capabilities: store.capabilities(),
        database_path,
    }
}

/// Indexes a repository from its walk entries and readable files.
pub fn index(entries: &Vec<WalkEntry>, files: &Vec<SourceFile>) -> (r: Result<IndexResult, IndexError>)
    ensures
        match r {
            Ok(res) => res.database_path is None && exists|s: GraphStore, s0: GraphStore, s1: GraphStore, s2: GraphStore, s3: GraphStore, s4: GraphStore, s5: GraphStore|
                #[trigger] index_stages(entries@, files@, s0, s1, s2, s3, s4, s5, s) && s.wf() && summary_of(s, res),
            Err(e) => e is Parse && exists|i: int| 0 <= i < files@.len() && #[trigger] uncuttable_file(files@[i]),
        },
{
    index_with_options(entries, files, IndexOptions::default())
}

/// Indexes a repository with explicit options.
pub fn index_with_options(entries: &Vec<WalkEntry>, files: &Vec<SourceFile>, options: IndexOptions) -> (r: Result<IndexResult, IndexError>)
    ensures
        match r {
            Ok(res) => res.database_path == options.database_path && exists|s: GraphStore, s0: GraphStore, s1: GraphStore, s2: GraphStore, s3: GraphStore, s4: GraphStore, s5: GraphStore|
                #[trigger] index_stages(entries@, files@, s0, s1, s2, s3, s4, s5, s) && s.wf() && summary_of(s, res),
            Err(e) => e is Parse && exists|i: int| 0 <= i < files@.len() && #[trigger] uncuttable_file(files@[i]),
        },
{
    let store = build_index_store(entries, files)?;
    let res = finalize_index_result(&store, options.database_path);
    Ok(res)
}

/// Indexes a repository and gives its graph as JSON text.
pub fn export_graph_json(entries: &Vec<WalkEntry>, files: &Vec<SourceFile>) -> (r: Result<String, IndexError>)
    ensures
        match r {
            Ok(t) => exists|s: GraphStore, s0: GraphStore, s1: GraphStore, s2: GraphStore, s3: GraphStore, s4: GraphStore, s5: GraphStore, g: ExportGraph|
                #[trigger] index_stages(entries@, files@, s0, s1, s2, s3, s4, s5, s) && #[trigger] exported(s, g) && t@ == graph_json(g),
            Err(e) => e is Parse && exists|i: int| 0 <= i < files@.len() && #[trigger] uncuttable_file(files@[i]),
        },
{
    let store = build_index_store(entries, files)?;
    store.export_graph_json()
}

/// Indexes a repository and gives the store, for the query engine.
pub fn indexed_store(entries: &Vec<WalkEntry>, files: &Vec<SourceFile>) -> (r: Result<GraphStore, IndexError>)
    ensures
        match r {
            Ok(s) => s.wf() && exists|s0: GraphStore, s1: GraphStore, s2: GraphStore, s3: GraphStore, s4: GraphStore, s5: GraphStore|
                #[trigger] index_stages(entries@, files@, s0, s1, s2, s3, s4, s5, s),
            Err(e) => e is Parse && exists|i: int| 0 <= i < files@.len() && #[trigger] uncuttable_file(files@[i]),
        },
{
    build_index_store(entries, files)
}

/// `res` summarises the store `s`.
pub open spec fn summary_of(s: GraphStore, res: IndexResult) -> bool {
    &&& res.file_count == s.node_rows().filter(|n: GraphNode| n.kind == NodeKind::File).len()
    &&& res.unknown_extension_count == s.node_rows().filter(unknown_file()).len()
    &&& res.symbol_count == s.node_rows().filter(|n: GraphNode| n.kind.symbol_kind()).len()
    &&& capabilities_of(s.node_rows(), s.edge_rows(), res.capabilities.languages@)
}

/// The fixture directory `name` of the workspace, as a path below
/// `crate_dir`, the directory of the crate that asks.
pub fn fixture_path(crate_dir: &str, name: &str) -> (r: String)
    ensures
        r@ == join_path(join_path(crate_dir@, "../../fixtures"@), name@),
{
    let fixtures = join_chars(&chars_of(crate_dir), &chars_of("../../fixtures"));
    let joined = join_chars(&fixtures, &chars_of(name));
    string_of(&joined)
}

} // verus!
