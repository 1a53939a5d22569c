//! The data model: tree arena, module and workspace annotations, lenses.

use vstd::prelude::*;

verus! {

/// Which nodes the renderer shows.
#[derive(Clone, Copy, Debug, PartialEq, Eq, Structural)]
pub enum Lens {
    Module,
    Files,
}

/// Output format of the final text.
#[derive(Clone, Copy, Debug, PartialEq, Eq, Structural)]
pub enum Format {
    Text,
    Md,
}

#[derive(Clone, Copy, Debug, PartialEq, Eq, Structural)]
pub enum NodeKind {
    Dir,
    File,
    Error,
}

/// Ecosystem of a detected module; the declaration order is the tie-break
/// priority (earlier wins).
#[derive(Clone, Copy, Debug, PartialEq, Eq, Structural, Hash)]
pub enum ModuleKind {
    Node,
    Python,
    Rust,
    Go,
    Java,
    DotNet,
    Unknown,
}

pub open spec fn module_tag(k: ModuleKind) -> Seq<char> {
    match k {
        ModuleKind::Node => "[node]"@,
        ModuleKind::Python => "[py]"@,
        ModuleKind::Rust => "[rs]"@,
        ModuleKind::Go => "[go]"@,
        ModuleKind::Java => "[java]"@,
        ModuleKind::DotNet => "[dotnet]"@,
        ModuleKind::Unknown => "[module]"@,
    }
}

impl ModuleKind {
    /// The bracketed tag shown after an annotated node.
    pub fn tag(self) -> (r: &'static str)
        ensures
            r@ == module_tag(self),
    {
        match self {
            ModuleKind::Node => "[node]",
            ModuleKind::Python => "[py]",
            ModuleKind::Rust => "[rs]",
            ModuleKind::Go => "[go]",
            ModuleKind::Java => "[java]",
            ModuleKind::DotNet => "[dotnet]",
            ModuleKind::Unknown => "[module]",
        }
    }
}

/// Annotation of a directory recognised as a module.
#[derive(Clone, Debug)]
pub struct ModuleInfo {
    pub kind: ModuleKind,
    pub summary: Option<String>,
    pub markers: Vec<String>,
}

/// One filesystem entry. `rel_path` holds the path segments below the scan
/// root; it is empty for the root itself.
#[derive(Clone, Debug)]
pub struct Node {
    pub name: String,
    pub rel_path: Vec<String>,
    pub kind: NodeKind,
    pub children: Vec<usize>,
    pub module: Option<ModuleInfo>,
    pub error: Option<String>,
}

impl Node {
    pub fn is_dir(&self) -> (r: bool)
        ensures
            r == (self.kind == NodeKind::Dir),
    {
        match self.kind {
            NodeKind::Dir => true,
            _ => false,
        }
    }
}

/// The arena. Node 0 is the root; every child index is larger than its
/// parent's index, which makes the child relation acyclic.
#[derive(Clone, Debug)]
pub struct Tree {
    pub root_path: String,
    pub root: usize,
    pub nodes: Vec<Node>,
    pub truncated: bool,
    pub truncated_at: usize,
}

impl Tree {
    pub open spec fn wf(&self) -> bool {
        &&& self.root == 0
        &&& self.nodes.len() > 0
        &&& forall|i: int, j: int|
            #![trigger self.nodes@[i].children@[j]]
            0 <= i < self.nodes.len() && 0 <= j < self.nodes@[i].children.len() ==> i
                < self.nodes@[i].children@[j] < self.nodes.len()
    }

    /// Whether the arena is well formed: root 0 exists and every child
    /// index is in bounds and larger than its parent's.
    pub fn well_formed(&self) -> (r: bool)
        ensures
            r == self.wf(),
    {
        if self.root != 0 || self.nodes.len() == 0 {
            return false;
        }
        let mut i: usize = 0;
        while i < self.nodes.len()
            invariant
                i <= self.nodes.len(),
                forall|p: int, j: int|
                    #![trigger self.nodes@[p].children@[j]]
                    0 <= p < i && 0 <= j < self.nodes@[p].children.len() ==> p
                        < self.nodes@[p].children@[j] < self.nodes.len(),
            decreases self.nodes.len() - i,
        {
            let kids = &self.nodes[i].children;
            let mut j: usize = 0;
            while j < kids.len()
                invariant
                    i < self.nodes.len(),
                    kids == &self.nodes@[i as int].children,
                    j <= kids.len(),
                    forall|q: int| 0 <= q < j ==> i < #[trigger] kids@[q] < self.nodes.len(),
                decreases kids.len() - j,
            {
                let c = kids[j];
                if c <= i || c >= self.nodes.len() {
                    assert(self.nodes@[i as int].children@[j as int] == c);
                    return false;
                }
                j = j + 1;
            }
            i = i + 1;
        }
        true
    }
}

#[derive(Clone, Copy, Debug, PartialEq, Eq, Structural)]
pub enum WorkspaceKind {
    Pnpm,
    Npm,
    Lerna,
    Cargo,
    Go,
    Turbo,
    Nx,
}

pub open spec fn workspace_label(k: WorkspaceKind) -> Seq<char> {
    match k {
        WorkspaceKind::Pnpm => "pnpm"@,
        WorkspaceKind::Npm => "npm"@,
        WorkspaceKind::Lerna => "lerna"@,
        WorkspaceKind::Cargo => "cargo"@,
        WorkspaceKind::Go => "go"@,
        WorkspaceKind::Turbo => "turbo"@,
        WorkspaceKind::Nx => "nx"@,
    }
}

impl WorkspaceKind {
    pub fn label(self) -> (r: &'static str)
        ensures
            r@ == workspace_label(self),
    {
        match self {
            WorkspaceKind::Pnpm => "pnpm",
            WorkspaceKind::Npm => "npm",
            WorkspaceKind::Lerna => "lerna",
            WorkspaceKind::Cargo => "cargo",
            WorkspaceKind::Go => "go",
            WorkspaceKind::Turbo => "turbo",
            WorkspaceKind::Nx => "nx",
        }
    }
}

/// A workspace manifest found at the scan root, with its member globs as
/// declared.
#[derive(Clone, Debug)]
pub struct WorkspaceInfo {
    pub kind: WorkspaceKind,
    pub patterns: Vec<String>,
}

/// A workspace with its member globs resolved to package-root paths
/// (segments below the scan root).
#[derive(Clone, Debug)]
pub struct WorkspaceResolved {
    pub kind: WorkspaceKind,
    pub package_roots: Vec<Vec<String>>,
}

/// The annotated tree and the resolved workspace handed to the renderer.
#[derive(Debug)]
pub struct DiscoverResult {
    pub tree: Tree,
    pub workspace: Option<WorkspaceResolved>,
}

} // verus!
