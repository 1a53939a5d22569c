//! Arena construction from a bounded directory walk. The walk itself is
//! performed by the caller, which hands each entry to a `TreeBuilder` and
//! stops as soon as an entry is refused.

use vstd::prelude::*;

use crate::charseq::{opt_text, texts};
use crate::model::{Node, NodeKind, Tree};
use crate::paths::{parent_path, same_path};

verus! {

/// A name for what `Path::file_name` gives for a path written as text.
pub uninterp spec fn file_name_of(path: Seq<char>) -> Option<Seq<char>>;

/// Relies on `std::path::Path::file_name`: the final normal component of a
/// path, which depends on the text alone. The component of a `&str` path
/// is valid UTF-8, so the conversion back to text is exact.
#[verifier::external_body]
fn path_file_name(path: &str) -> (r: Option<String>)
    ensures
        opt_text(r) == file_name_of(path@),
{
    std::path::Path::new(path).file_name().map(|n| n.to_string_lossy().into_owned())
}

/// The name shown for the scan root: its final component, or the path as
/// given when it has none.
pub open spec fn root_name_of(path: Seq<char>) -> Seq<char> {
    match file_name_of(path) {
        Some(n) => if n.len() > 0 {
            n
        } else {
            path
        },
        None => path,
    }
}

pub fn display_root_name(path: &str) -> (r: String)
    ensures
        r@ == root_name_of(path@),
{
    match path_file_name(path) {
        Some(n) => {
            if !n.as_str().is_empty() {
                n
            } else {
                path.to_owned()
            }
        },
        None => path.to_owned(),
    }
}

/// The tree of a scan root that is a regular file: that file alone.
pub fn single_file_tree(path: &str) -> (r: Tree)
    ensures
        r.wf(),
        r.root_path@ == path@,
        r.nodes.len() == 1,
        r.nodes@[0].name@ == root_name_of(path@),
        r.nodes@[0].rel_path@.len() == 0,
        r.nodes@[0].kind == NodeKind::File,
        r.nodes@[0].children@.len() == 0,
        r.nodes@[0].module is None,
        r.nodes@[0].error is None,
        !r.truncated,
        r.truncated_at == 1,
{
    let node = Node {
        name: display_root_name(path),
        rel_path: Vec::new(),
        kind: NodeKind::File,
        children: Vec::new(),
        module: None,
        error: None,
    };
    let mut nodes: Vec<Node> = Vec::new();
    nodes.push(node);
    Tree { root_path: path.to_owned(), root: 0, nodes, truncated: false, truncated_at: 1 }
}

/// The message of a traversal error: `permission denied` when the
/// underlying I/O error is a refused access, else that I/O error's text,
/// else the walker's own text.
pub open spec fn error_message_of(io_error: Option<(bool, Seq<char>)>, walk_text: Seq<char>) -> Seq<char> {
    match io_error {
        Some((true, _)) => "permission denied"@,
        Some((false, t)) => t,
        None => walk_text,
    }
}

/// The message of a traversal error. `io_error` holds, when the walk error
/// wraps an I/O error, whether that error is a refused access and its text.
pub fn error_message(io_error: Option<(bool, String)>, walk_text: String) -> (r: String)
    ensures
        r@ == error_message_of(
            match io_error {
                Some((d, t)) => Some((d, t@)),
                None => None,
            },
            walk_text@,
        ),
{
    match io_error {
        Some((true, _)) => "permission denied".to_owned(),
        Some((false, text)) => text,
        None => walk_text,
    }
}

/// One entry reported by the walk: its name, its path segments below the
/// scan root, its kind, and the message of a traversal error.
#[derive(Clone, Debug)]
pub struct WalkEntry {
    pub name: String,
    pub rel_path: Vec<String>,
    pub kind: NodeKind,
    pub error: Option<String>,
}

/// Node `p` is a valid parent for an entry at `path`: it has the parent's
/// path, or no node has it and `p` is the root.
pub open spec fn parent_fits(nodes: Seq<Node>, p: int, path: Seq<Seq<char>>) -> bool {
    ||| texts(nodes[p].rel_path@) == parent_path(path)
    ||| (p == 0 && forall|q: int|
        0 <= q < nodes.len() ==> texts(#[trigger] nodes[q].rel_path@) != parent_path(path))
}

/// Builds the arena entry by entry, counting entries against `max_items`.
pub struct TreeBuilder {
    tree: Tree,
    max_items: usize,
    open_dirs: Vec<usize>,
    offered: Ghost<nat>,
}

/// Walk budget: after any number of entries offered by a walk, the count
/// of entries taken is the smaller of that number and `max_items` (so it
/// never exceeds `max_items`), every taken entry has one node besides the
/// root, and the tree is truncated exactly when more entries were offered
/// than the budget allows, that is when the walk stopped before its end.
pub proof fn law_walk_budget(b: TreeBuilder)
    requires
        b.wf(),
    ensures
        b.tree().truncated_at <= b.max_items(),
        b.tree().truncated_at == if b.offered() < b.max_items() {
            b.offered()
        } else {
            b.max_items() as nat
        },
        b.tree().truncated <==> b.offered() > b.max_items(),
        b.tree().nodes.len() == b.tree().truncated_at + 1,
{
}

impl TreeBuilder {
    pub closed spec fn tree(&self) -> Tree {
        self.tree
    }

    pub closed spec fn max_items(&self) -> usize {
        self.max_items
    }

    /// How many entries the walk has offered so far.
    pub closed spec fn offered(&self) -> nat {
        self.offered@
    }

    pub closed spec fn wf(&self) -> bool {
        &&& self.tree.wf()
        &&& self.tree.truncated_at == if self.offered@ < self.max_items {
            self.offered@
        } else {
            self.max_items as nat
        }
        &&& self.tree.truncated <==> self.offered@ > self.max_items
        &&& self.tree.truncated_at <= self.max_items
        &&& self.tree.nodes.len() == self.tree.truncated_at + 1
        &&& forall|i: int| 0 <= i < self.open_dirs.len() ==> #[trigger] self.open_dirs@[i] < self.tree.nodes.len()
    }

    /// Starts a tree holding only the root directory.
    pub fn new(root_path: String, root_name: String, max_items: usize) -> (r: TreeBuilder)
        ensures
            r.wf(),
            r.max_items() == max_items,
            r.tree().root_path == root_path,
            r.tree().nodes.len() == 1,
            r.tree().nodes@[0].name == root_name,
            r.tree().nodes@[0].rel_path@.len() == 0,
            r.tree().nodes@[0].kind == NodeKind::Dir,
            r.tree().nodes@[0].children@.len() == 0,
            r.tree().nodes@[0].module is None,
            r.tree().nodes@[0].error is None,
            !r.tree().truncated,
            r.tree().truncated_at == 0,
            r.offered() == 0,
    {
        let root = Node {
            name: root_name,
            rel_path: Vec::new(),
            kind: NodeKind::Dir,
            children: Vec::new(),
            module: None,
            error: None,
        };
        let mut nodes: Vec<Node> = Vec::new();
        nodes.push(root);
        TreeBuilder {
            tree: Tree { root_path, root: 0, nodes, truncated: false, truncated_at: 0 },
            max_items,
            open_dirs: Vec::new(),
            offered: Ghost(0),
        }
    }

    fn has_path(&self, id: usize, path: &Vec<String>) -> (r: bool)
        requires
            id < self.tree.nodes.len(),
        ensures
            r == (texts(self.tree.nodes@[id as int].rel_path@) == texts(path@)),
    {
        same_path(&self.tree.nodes[id].rel_path, path)
    }

    fn find_parent(&self, parent: &Vec<String>) -> (p: usize)
        requires
            self.wf(),
        ensures
            p < self.tree.nodes.len(),
            texts(self.tree.nodes@[p as int].rel_path@) == texts(parent@) || (p == 0 && forall|q: int|
                0 <= q < self.tree.nodes.len() ==> texts(#[trigger] self.tree.nodes@[q].rel_path@)
                    != texts(parent@)),
    {
        let depth = parent.len();
        if depth == 0 {
            if self.has_path(0, parent) {
                return 0;
            }
        } else if depth - 1 < self.open_dirs.len() {
            let guess = self.open_dirs[depth - 1];
            if self.has_path(guess, parent) {
                return guess;
            }
        }
        let mut i: usize = self.tree.nodes.len();
        while i > 0
            invariant
                self.wf(),
                i <= self.tree.nodes.len(),
                forall|q: int|
                    i <= q < self.tree.nodes.len() ==> texts(#[trigger] self.tree.nodes@[q].rel_path@)
                        != texts(parent@),
            decreases i,
        {
            if self.has_path(i - 1, parent) {
                return i - 1;
            }
            i = i - 1;
        }
        0
    }

    /// Offers the next entry of the walk. It is taken, and linked under its
    /// parent directory, while fewer than `max_items` entries were taken;
    /// otherwise it is refused, the tree is marked truncated, and the walk
    /// must stop.
    pub fn add_entry(&mut self, entry: WalkEntry) -> (accepted: bool)
        requires
            old(self).wf(),
        ensures
            final(self).wf(),
            final(self).max_items() == old(self).max_items(),
            final(self).offered() == old(self).offered() + 1,
            final(self).tree().root_path == old(self).tree().root_path,
            accepted == (!old(self).tree().truncated
                && old(self).tree().truncated_at < old(self).max_items()),
            !accepted ==> final(self).tree().nodes == old(self).tree().nodes
                && final(self).tree().truncated_at == old(self).tree().truncated_at
                && final(self).tree().truncated,
            accepted ==> ({
                let n = old(self).tree().nodes.len() as int;
                let before = old(self).tree().nodes@;
                let after = final(self).tree().nodes@;
                &&& !final(self).tree().truncated
                &&& final(self).tree().truncated_at == old(self).tree().truncated_at + 1
                &&& after.len() == n + 1
                &&& after[n].name == entry.name
                &&& after[n].rel_path == entry.rel_path
                &&& after[n].kind == entry.kind
                &&& after[n].children@.len() == 0
                &&& after[n].module is None
                &&& after[n].error == entry.error
                &&& exists|p: int|
                    0 <= p < n && parent_fits(before, p, texts(entry.rel_path@))
                        && after[p].children@ == before[p].children@.push(n as usize)
                        && after[p].name == before[p].name && after[p].rel_path == before[p].rel_path
                        && after[p].kind == before[p].kind && after[p].module == before[p].module
                        && after[p].error == before[p].error && forall|q: int|
                        0 <= q < n && q != p ==> after[q] == before[q]
            }),
    {
        if self.tree.truncated || self.tree.truncated_at >= self.max_items {
            self.offered = Ghost(self.offered@ + 1);
            self.tree.truncated = true;
            return false;
        }
        let mut parent_rel: Vec<String> = Vec::new();
        let mut k: usize = 0;
        while k + 1 < entry.rel_path.len()
            invariant
                k <= entry.rel_path.len(),
                k + 1 < entry.rel_path.len() || k == 0 || k + 1 == entry.rel_path.len(),
                texts(parent_rel@) == texts(entry.rel_path@).take(k as int),
            decreases entry.rel_path.len() - k,
        {
            let ghost prev = parent_rel@;
            parent_rel.push(entry.rel_path[k].clone());
            proof {
                assert(texts(parent_rel@) =~= texts(prev).push(entry.rel_path@[k as int]@));
                assert(texts(entry.rel_path@).take(k + 1) =~= texts(entry.rel_path@).take(
                    k as int,
                ).push(entry.rel_path@[k as int]@));
            }
            k = k + 1;
        }
        proof {
            let full = texts(entry.rel_path@);
            if full.len() == 0 {
                assert(texts(parent_rel@) =~= parent_path(full));
            } else {
                assert(texts(parent_rel@) =~= parent_path(full));
            }
        }
        let parent_id = self.find_parent(&parent_rel);
        let node_id = self.tree.nodes.len();
        let depth = entry.rel_path.len();
        let is_dir = entry.kind == NodeKind::Dir;
        let ghost before = self.tree.nodes@;
        self.tree.nodes.push(
            Node {
                name: entry.name,
                rel_path: entry.rel_path,
                kind: entry.kind,
                children: Vec::new(),
                module: None,
                error: entry.error,
            },
        );
        self.tree.nodes[parent_id].children.push(node_id);
        self.tree.truncated_at = self.tree.truncated_at + 1;
        self.offered = Ghost(self.offered@ + 1);
        if is_dir && depth > 0 {
            if depth - 1 < self.open_dirs.len() {
                self.open_dirs.truncate(depth - 1);
            }
            if depth - 1 == self.open_dirs.len() {
                self.open_dirs.push(node_id);
            }
        }
        proof {
            let after = self.tree.nodes@;
            assert forall|i: int, j: int|
                0 <= i < after.len() && 0 <= j < after[i].children.len() implies i
                < #[trigger] after[i].children@[j] < after.len() by {
                if i == parent_id as int {
                    if j < before[i].children.len() {
                        assert(after[i].children@[j] == before[i].children@[j]);
                    }
                } else if i < before.len() {
                    assert(after[i] == before[i]);
                }
            }
            assert(parent_fits(before, parent_id as int, texts(entry.rel_path@)));
        }
        true
    }

    /// The finished arena.
    pub fn finish(self) -> (r: Tree)
        requires
            self.wf(),
        ensures
            r == self.tree(),
            r.wf(),
            r.truncated_at <= self.max_items(),
    {
        self.tree
    }
}

} // verus!
