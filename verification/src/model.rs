//! Graph vocabulary: tiers, node and edge kinds, nodes, edges and their ids.
use vstd::prelude::*;
use crate::text::{chars_of, concat, decimal, decimal_string, is_prefix, starts_with, str_eq};

verus! {

/// Values that can be copied with a proof that the copy is equal.
pub trait Dup: Sized {
    fn dup(&self) -> (r: Self)
        ensures
            r == *self,
    ;
}

impl Dup for String {
    fn dup(&self) -> (r: Self) {
        self.clone()
    }
}

impl Dup for Option<String> {
    fn dup(&self) -> (r: Self) {
        match self {
            Some(s) => Some(s.clone()),
            None => None,
        }
    }
}

/// Copies every element of `v`.
pub fn dup_vec<T: Dup>(v: &Vec<T>) -> (r: Vec<T>)
    ensures
        r@ == v@,
{
    let mut r: Vec<T> = Vec::new();
    let mut i: usize = 0;
    while i < v.len()
        invariant
            i <= v.len(),
            r@ == v@.take(i as int),
        decreases v.len() - i,
    {
        r.push(v[i].dup());
        assert(v@.take(i + 1) == v@.take(i as int).push(v@[i as int]));
        i += 1;
    }
    assert(v@.take(v.len() as int) == v@);
    r
}

/// How deeply a language is understood.
#[derive(Debug, Clone, Copy, PartialEq, Eq, Structural)]
pub enum Tier {
    L0,
    L1,
    L2,
    L3,
    L4,
}

impl Tier {
    pub open spec fn name_text(self) -> Seq<char> {
        match self {
            Tier::L0 => "L0"@,
            Tier::L1 => "L1"@,
            Tier::L2 => "L2"@,
            Tier::L3 => "L3"@,
            Tier::L4 => "L4"@,
        }
    }

    pub fn as_str(self) -> (s: &'static str)
        ensures
            s@ == self.name_text(),
    {
        match self {
            Tier::L0 => "L0",
            Tier::L1 => "L1",
            Tier::L2 => "L2",
            Tier::L3 => "L3",
            Tier::L4 => "L4",
        }
    }
}

#[derive(Debug, Clone, Copy, PartialEq, Eq, Hash, Structural)]
pub enum NodeKind {
    Directory,
    File,
    Function,
    Class,
    Import,
    /// L3: UI control wired to a handler (e.g. React `onClick`).
    UiElement,
    /// L3: HTTP route entry (e.g. FastAPI `@app.post("/path")`).
    Route,
    /// Decision point inside a function (`if`, `try`, ...).
    Branch,
}

impl NodeKind {
    pub open spec fn name_text(self) -> Seq<char> {
        match self {
            NodeKind::Directory => "directory"@,
            NodeKind::File => "file"@,
            NodeKind::Function => "function"@,
            NodeKind::Class => "class"@,
            NodeKind::Import => "import"@,
            NodeKind::UiElement => "ui_element"@,
            NodeKind::Route => "route"@,
            NodeKind::Branch => "branch"@,
        }
    }

    pub open spec fn symbol_kind(self) -> bool {
        !(self is Directory || self is File)
    }

    pub fn as_str(self) -> (s: &'static str)
        ensures
            s@ == self.name_text(),
    {
        match self {
            NodeKind::Directory => "directory",
            NodeKind::File => "file",
            NodeKind::Function => "function",
            NodeKind::Class => "class",
            NodeKind::Import => "import",
            NodeKind::UiElement => "ui_element",
            NodeKind::Route => "route",
            NodeKind::Branch => "branch",
        }
    }

    /// Everything below a file: functions, classes, imports, UI elements, routes, branches.
    pub fn is_symbol(self) -> (b: bool)
        ensures
            b == self.symbol_kind(),
    {
        match self {
            NodeKind::Directory | NodeKind::File => false,
            _ => true,
        }
    }
}

#[derive(Debug, Clone, Copy, PartialEq, Eq, Structural)]
pub enum EdgeKind {
    Contains,
    Imports,
    Calls,
    /// L3: UI element triggers a handler function.
    Triggers,
    /// L3: route dispatches to a handler function.
    Handles,
    /// L4: client call targets a server route (cross-layer).
    Fetches,
    /// Decision branch may reach an outcome (call target).
    BranchesTo,
}

impl EdgeKind {
    pub open spec fn name_text(self) -> Seq<char> {
        match self {
            EdgeKind::Contains => "CONTAINS"@,
            EdgeKind::Imports => "IMPORTS"@,
            EdgeKind::Calls => "CALLS"@,
            EdgeKind::Triggers => "TRIGGERS"@,
            EdgeKind::Handles => "HANDLES"@,
            EdgeKind::Fetches => "FETCHES"@,
            EdgeKind::BranchesTo => "BRANCHES_TO"@,
        }
    }

    pub open spec fn semantic_kind(self) -> bool {
        !(self is Contains)
    }

    pub open spec fn trace_kind(self) -> bool {
        !(self is Contains || self is Imports)
    }

    pub fn as_str(self) -> (s: &'static str)
        ensures
            s@ == self.name_text(),
    {
        match self {
            EdgeKind::Contains => "CONTAINS",
            EdgeKind::Imports => "IMPORTS",
            EdgeKind::Calls => "CALLS",
            EdgeKind::Triggers => "TRIGGERS",
            EdgeKind::Handles => "HANDLES",
            EdgeKind::Fetches => "FETCHES",
            EdgeKind::BranchesTo => "BRANCHES_TO",
        }
    }

    /// Every kind but `Contains`.
    pub fn is_semantic(self) -> (b: bool)
        ensures
            b == self.semantic_kind(),
    {
        match self {
            EdgeKind::Contains => false,
            _ => true,
        }
    }

    /// The kinds a trace follows: all but `Contains` and `Imports`.
    pub fn is_trace(self) -> (b: bool)
        ensures
            b == self.trace_kind(),
    {
        match self {
            EdgeKind::Contains | EdgeKind::Imports => false,
            _ => true,
        }
    }
}

/// The kind whose name is `s`, if any.
pub open spec fn node_kind_named(s: Seq<char>) -> Option<NodeKind> {
    if s == "directory"@ {
        Some(NodeKind::Directory)
    } else if s == "file"@ {
        Some(NodeKind::File)
    } else if s == "function"@ {
        Some(NodeKind::Function)
    } else if s == "class"@ {
        Some(NodeKind::Class)
    } else if s == "import"@ {
        Some(NodeKind::Import)
    } else if s == "ui_element"@ {
        Some(NodeKind::UiElement)
    } else if s == "route"@ {
        Some(NodeKind::Route)
    } else if s == "branch"@ {
        Some(NodeKind::Branch)
    } else {
        None
    }
}

pub open spec fn edge_kind_named(s: Seq<char>) -> Option<EdgeKind> {
    if s == "CONTAINS"@ {
        Some(EdgeKind::Contains)
    } else if s == "IMPORTS"@ {
        Some(EdgeKind::Imports)
    } else if s == "CALLS"@ {
        Some(EdgeKind::Calls)
    } else if s == "TRIGGERS"@ {
        Some(EdgeKind::Triggers)
    } else if s == "HANDLES"@ {
        Some(EdgeKind::Handles)
    } else if s == "FETCHES"@ {
        Some(EdgeKind::Fetches)
    } else if s == "BRANCHES_TO"@ {
        Some(EdgeKind::BranchesTo)
    } else {
        None
    }
}

/// Reads a node kind back from its stored name.
pub fn parse_node_kind(s: &str) -> (r: Option<NodeKind>)
    ensures
        r == node_kind_named(s@),
{
    if str_eq(s, "directory") {
        Some(NodeKind::Directory)
    } else if str_eq(s, "file") {
        Some(NodeKind::File)
    } else if str_eq(s, "function") {
        Some(NodeKind::Function)
    } else if str_eq(s, "class") {
        Some(NodeKind::Class)
    } else if str_eq(s, "import") {
        Some(NodeKind::Import)
    } else if str_eq(s, "ui_element") {
        Some(NodeKind::UiElement)
    } else if str_eq(s, "route") {
        Some(NodeKind::Route)
    } else if str_eq(s, "branch") {
        Some(NodeKind::Branch)
    } else {
        None
    }
}

/// Reads an edge kind back from its stored name.
pub fn parse_edge_kind(s: &str) -> (r: Option<EdgeKind>)
    ensures
        r == edge_kind_named(s@),
{
    if str_eq(s, "CONTAINS") {
        Some(EdgeKind::Contains)
    } else if str_eq(s, "IMPORTS") {
        Some(EdgeKind::Imports)
    } else if str_eq(s, "CALLS") {
        Some(EdgeKind::Calls)
    } else if str_eq(s, "TRIGGERS") {
        Some(EdgeKind::Triggers)
    } else if str_eq(s, "HANDLES") {
        Some(EdgeKind::Handles)
    } else if str_eq(s, "FETCHES") {
        Some(EdgeKind::Fetches)
    } else if str_eq(s, "BRANCHES_TO") {
        Some(EdgeKind::BranchesTo)
    } else {
        None
    }
}

/// A kind's stored name reads back as that kind.
pub proof fn node_kind_name_round_trip(k: NodeKind)
    ensures
        node_kind_named(k.name_text()) == Some(k),
{
    reveal_strlit("directory");
    reveal_strlit("file");
    reveal_strlit("function");
    reveal_strlit("class");
    reveal_strlit("import");
    reveal_strlit("ui_element");
    reveal_strlit("route");
    reveal_strlit("branch");
    match k {
        NodeKind::Directory => {},
        NodeKind::File => {
            assert("file"@.len() != "directory"@.len());
        },
        NodeKind::Function => {
            assert("function"@[0] != "file"@[0] || "function"@.len() != "file"@.len());
        },
        NodeKind::Class => {
            assert("class"@[0] != "function"@[0]);
        },
        NodeKind::Import => {
            assert("import"@[0] != "class"@[0]);
        },
        NodeKind::UiElement => {
            assert("ui_element"@[0] != "import"@[0]);
        },
        NodeKind::Route => {
            assert("route"@[0] != "class"@[0]);
        },
        NodeKind::Branch => {
            assert("branch"@[0] != "class"@[0]);
        },
    }
}

/// An edge kind's stored name reads back as that kind.
pub proof fn edge_kind_name_round_trip(k: EdgeKind)
    ensures
        edge_kind_named(k.name_text()) == Some(k),
{
    reveal_strlit("CONTAINS");
    reveal_strlit("IMPORTS");
    reveal_strlit("CALLS");
    reveal_strlit("TRIGGERS");
    reveal_strlit("HANDLES");
    reveal_strlit("FETCHES");
    reveal_strlit("BRANCHES_TO");
    match k {
        EdgeKind::Contains => {},
        EdgeKind::Imports => {
            assert("IMPORTS"@[0] != "CONTAINS"@[0]);
        },
        EdgeKind::Calls => {
            assert("CALLS"@[1] != "CONTAINS"@[1]);
        },
        EdgeKind::Triggers => {
            assert("TRIGGERS"@[0] != "CALLS"@[0]);
        },
        EdgeKind::Handles => {
            assert("HANDLES"@[0] != "CALLS"@[0]);
        },
        EdgeKind::Fetches => {
            assert("FETCHES"@[0] != "CALLS"@[0]);
        },
        EdgeKind::BranchesTo => {
            assert("BRANCHES_TO"@[0] != "CALLS"@[0]);
        },
    }
}

/// A node of the code graph.
#[derive(Debug, Clone, PartialEq)]
pub struct GraphNode {
    pub id: String,
    pub kind: NodeKind,
    pub name: String,
    pub relative_path: String,
    pub parent_file: Option<String>,
    pub line: Option<u32>,
    pub extension: Option<String>,
    pub language_id: String,
    pub size_bytes: Option<u64>,
}

impl Dup for GraphNode {
    fn dup(&self) -> (r: Self) {
        GraphNode {
            id: self.id.clone(),
            kind: self.kind,
            name: self.name.clone(),
            relative_path: self.relative_path.clone(),
            parent_file: self.parent_file.dup(),
            line: self.line,
            extension: self.extension.dup(),
            language_id: self.language_id.clone(),
            size_bytes: self.size_bytes,
        }
    }
}

/// An edge of the code graph. Confidence is held in thousandths.
#[derive(Debug, Clone, PartialEq)]
pub struct GraphEdge {
    pub id: String,
    pub from_id: String,
    pub to_id: String,
    pub kind: EdgeKind,
    pub confidence_milli: Option<u16>,
}

impl Dup for GraphEdge {
    fn dup(&self) -> (r: Self) {
        GraphEdge {
            id: self.id.clone(),
            from_id: self.from_id.clone(),
            to_id: self.to_id.clone(),
            kind: self.kind,
            confidence_milli: self.confidence_milli,
        }
    }
}

/// A relation found by a resolver, before it is stored. Confidence in thousandths.
#[derive(Debug, Clone, PartialEq)]
pub struct ResolvedEdge {
    pub from_id: String,
    pub to_id: String,
    pub kind: EdgeKind,
    pub confidence_milli: u16,
}

impl Dup for ResolvedEdge {
    fn dup(&self) -> (r: Self) {
        ResolvedEdge {
            from_id: self.from_id.clone(),
            to_id: self.to_id.clone(),
            kind: self.kind,
            confidence_milli: self.confidence_milli,
        }
    }
}

#[derive(Debug, Clone, PartialEq, Eq)]
pub struct LanguageCapability {
    pub id: String,
    pub files: usize,
    pub tier: Tier,
}

impl Dup for LanguageCapability {
    fn dup(&self) -> (r: Self) {
        LanguageCapability { id: self.id.clone(), files: self.files, tier: self.tier }
    }
}

#[derive(Debug, Clone, PartialEq, Eq)]
pub struct Capabilities {
    pub languages: Vec<LanguageCapability>,
}

/// One path found by walking a repository (relative, `/`-separated).
#[derive(Debug, Clone, PartialEq, Eq)]
pub struct WalkEntry {
    pub relative_path: String,
    pub is_dir: bool,
    pub size_bytes: Option<u64>,
}

impl Dup for WalkEntry {
    fn dup(&self) -> (r: Self) {
        WalkEntry {
            relative_path: self.relative_path.clone(),
            is_dir: self.is_dir,
            size_bytes: self.size_bytes,
        }
    }
}

/// A symbol found in one source file.
#[derive(Debug, Clone, PartialEq, Eq)]
pub struct ExtractedSymbol {
    pub kind: NodeKind,
    pub name: String,
    pub parent_file: String,
    pub line: u32,
    pub language_id: String,
}

impl Dup for ExtractedSymbol {
    fn dup(&self) -> (r: Self) {
        ExtractedSymbol {
            kind: self.kind,
            name: self.name.clone(),
            parent_file: self.parent_file.clone(),
            line: self.line,
            language_id: self.language_id.clone(),
        }
    }
}

/// The node id of a repository path.
pub open spec fn node_id_text(p: Seq<char>) -> Seq<char> {
    if p == "."@ || p.len() == 0 {
        "dir:."@
    } else if is_prefix("dir:"@, p) || is_prefix("file:"@, p) || is_prefix("sym:"@, p) {
        p
    } else {
        "path:"@ + p
    }
}

/// `sym:{file}:{kind}:{name}:{line}`.
pub open spec fn symbol_id_text(parent_file: Seq<char>, kind: NodeKind, name: Seq<char>, line: u32) -> Seq<char> {
    "sym:"@ + parent_file + ":"@ + kind.name_text() + ":"@ + name + ":"@ + decimal(line as nat)
}

/// `{KIND}:{from}:{to}`.
pub open spec fn edge_id_text(from_id: Seq<char>, to_id: Seq<char>, kind: EdgeKind) -> Seq<char> {
    kind.name_text() + ":"@ + from_id + ":"@ + to_id
}

pub fn node_id_for_path(relative_path: &str) -> (r: String)
    ensures
        r@ == node_id_text(relative_path@),
{
    let p = chars_of(relative_path);
    if str_eq(relative_path, ".") || p.len() == 0 {
        return "dir:.".to_owned();
    }
    let dir = chars_of("dir:");
    let file = chars_of("file:");
    let sym = chars_of("sym:");
    if starts_with(&p, &dir) || starts_with(&p, &file) || starts_with(&p, &sym) {
        relative_path.to_owned()
    } else {
        concat("path:", relative_path)
    }
}

pub fn symbol_id(parent_file: &str, kind: NodeKind, name: &str, line: u32) -> (r: String)
    ensures
        r@ == symbol_id_text(parent_file@, kind, name@, line),
{
    let mut r = concat("sym:", parent_file);
    r.append(":");
    r.append(kind.as_str());
    r.append(":");
    r.append(name);
    r.append(":");
    let digits = decimal_string(line as u64);
    r.append(digits.as_str());
    r
}

pub fn edge_id(from_id: &str, to_id: &str, kind: EdgeKind) -> (r: String)
    ensures
        r@ == edge_id_text(from_id@, to_id@, kind),
{
    let mut r = concat(kind.as_str(), ":");
    r.append(from_id);
    r.append(":");
    r.append(to_id);
    r
}

/// Why indexing failed. The payloads are the messages of the underlying failures.
#[derive(Debug)]
pub enum IndexError {
    PathNotFound(String),
    Io(String),
    Sqlite(String),
    Export(String),
    Parse(String),
}

impl IndexError {
    pub open spec fn message_text(&self) -> Seq<char> {
        match self {
            IndexError::PathNotFound(p) => "path does not exist: "@ + p@,
            IndexError::Io(e) => "io error: "@ + e@,
            IndexError::Sqlite(e) => "sqlite error: "@ + e@,
            IndexError::Export(e) => "export error: "@ + e@,
            IndexError::Parse(e) => "parse error: "@ + e@,
        }
    }

    /// The error as a sentence.
    pub fn message(&self) -> (r: String)
        ensures
            r@ == self.message_text(),
    {
        match self {
            IndexError::PathNotFound(p) => concat("path does not exist: ", p.as_str()),
            IndexError::Io(e) => concat("io error: ", e.as_str()),
            IndexError::Sqlite(e) => concat("sqlite error: ", e.as_str()),
            IndexError::Export(e) => concat("export error: ", e.as_str()),
            IndexError::Parse(e) => concat("parse error: ", e.as_str()),
        }
    }
}

} // verus!
