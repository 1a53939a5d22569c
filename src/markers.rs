//! Module detection: manifest files in a directory classify it, with a fixed
//! priority when several ecosystems are present; annotation attaches the
//! result to the tree, scoped to the workspace's package roots.

use vstd::prelude::*;

use crate::charseq::{clone_opt, clone_strings, ends_with, has_suffix, opt_text, same_text, texts};
use crate::model::{ModuleInfo, ModuleKind, Node, NodeKind, Tree, WorkspaceResolved};
use crate::paths::{is_seg_prefix, seg_prefix};

verus! {

/// A directory that holds one or more manifest files.
#[derive(Clone, Debug)]
pub struct ModuleCandidate {
    pub node_id: usize,
    pub kind: ModuleKind,
    pub markers: Vec<String>,
}

/// The ecosystem that a file name marks, if any.
pub open spec fn marker_kind(n: Seq<char>) -> Option<ModuleKind> {
    if n == "package.json"@ {
        Some(ModuleKind::Node)
    } else if n == "pyproject.toml"@ || n == "setup.py"@ || n == "setup.cfg"@ {
        Some(ModuleKind::Python)
    } else if n == "Cargo.toml"@ {
        Some(ModuleKind::Rust)
    } else if n == "go.mod"@ {
        Some(ModuleKind::Go)
    } else if n == "pom.xml"@ || n == "build.gradle"@ || n == "build.gradle.kts"@ {
        Some(ModuleKind::Java)
    } else if has_suffix(n, ".csproj"@) {
        Some(ModuleKind::DotNet)
    } else {
        None
    }
}

fn marker_kind_for_file(name: &str) -> (r: Option<ModuleKind>)
    ensures
        r == marker_kind(name@),
{
    if same_text(name, "package.json") {
        Some(ModuleKind::Node)
    } else if same_text(name, "pyproject.toml") || same_text(name, "setup.py") || same_text(
        name,
        "setup.cfg",
    ) {
        Some(ModuleKind::Python)
    } else if same_text(name, "Cargo.toml") {
        Some(ModuleKind::Rust)
    } else if same_text(name, "go.mod") {
        Some(ModuleKind::Go)
    } else if same_text(name, "pom.xml") || same_text(name, "build.gradle") || same_text(
        name,
        "build.gradle.kts",
    ) {
        Some(ModuleKind::Java)
    } else if ends_with(name, ".csproj") {
        Some(ModuleKind::DotNet)
    } else {
        None
    }
}

/// Tie-break priority: lower wins.
pub open spec fn priority(k: ModuleKind) -> u8 {
    match k {
        ModuleKind::Node => 0,
        ModuleKind::Python => 1,
        ModuleKind::Rust => 2,
        ModuleKind::Go => 3,
        ModuleKind::Java => 4,
        ModuleKind::DotNet => 5,
        ModuleKind::Unknown => 6,
    }
}

fn kind_priority(kind: &ModuleKind) -> (r: u8)
    ensures
        r == priority(*kind),
{
    match kind {
        ModuleKind::Node => 0,
        ModuleKind::Python => 1,
        ModuleKind::Rust => 2,
        ModuleKind::Go => 3,
        ModuleKind::Java => 4,
        ModuleKind::DotNet => 5,
        ModuleKind::Unknown => 6,
    }
}

/// The names of the file children in `kids` that are manifest files, in
/// child order; directories and error entries never count.
pub open spec fn found_markers(nodes: Seq<Node>, kids: Seq<usize>) -> Seq<Seq<char>>
    decreases kids.len(),
{
    if kids.len() == 0 {
        Seq::empty()
    } else {
        let rest = found_markers(nodes, kids.drop_last());
        let c = nodes[kids.last() as int];
        if c.kind == NodeKind::File && marker_kind(c.name@) is Some {
            rest.push(c.name@)
        } else {
            rest
        }
    }
}

/// The kind of lowest priority among the marker names; the first one wins
/// among equals, and no marker gives `Unknown`.
pub open spec fn best_kind(names: Seq<Seq<char>>) -> ModuleKind
    decreases names.len(),
{
    if names.len() == 0 {
        ModuleKind::Unknown
    } else {
        let b = best_kind(names.drop_last());
        let k = match marker_kind(names.last()) {
            Some(k) => k,
            None => ModuleKind::Unknown,
        };
        if priority(k) < priority(b) {
            k
        } else {
            b
        }
    }
}

/// A candidate as plain values: node index, kind, marker names.
pub open spec fn candidate_view(c: ModuleCandidate) -> (usize, ModuleKind, Seq<Seq<char>>) {
    (c.node_id, c.kind, texts(c.markers@))
}

/// The candidates among the first `n` nodes, in node order.
pub open spec fn candidates_upto(nodes: Seq<Node>, n: int) -> Seq<(usize, ModuleKind, Seq<Seq<char>>)>
    decreases n,
{
    if n <= 0 {
        Seq::empty()
    } else {
        let rest = candidates_upto(nodes, n - 1);
        let node = nodes[n - 1];
        let ms = found_markers(nodes, node.children@);
        if node.kind == NodeKind::Dir && ms.len() > 0 {
            rest.push(((n - 1) as usize, best_kind(ms), ms))
        } else {
            rest
        }
    }
}

/// Module-kind tie-break: the chosen kind has the lowest priority of all
/// the markers found (node < python < rust < go < java < dotnet), and is
/// the kind of one of them. So a directory with both a Node and a Python
/// manifest is classified Node.
pub proof fn law_kind_tie_break(names: Seq<Seq<char>>)
    requires
        forall|i: int| 0 <= i < names.len() ==> marker_kind(#[trigger] names[i]) is Some,
    ensures
        forall|i: int|
            0 <= i < names.len() ==> priority(best_kind(names)) <= priority(
                marker_kind(#[trigger] names[i])->Some_0,
            ),
        names.len() > 0 ==> exists|i: int|
            0 <= i < names.len() && marker_kind(#[trigger] names[i]) == Some(best_kind(names)),
        (exists|i: int| 0 <= i < names.len() && marker_kind(#[trigger] names[i]) == Some(ModuleKind::Node))
            ==> best_kind(names) == ModuleKind::Node,
    decreases names.len(),
{
    if names.len() > 0 {
        let init = names.drop_last();
        law_kind_tie_break(init);
        assert forall|i: int| 0 <= i < init.len() implies marker_kind(#[trigger] init[i]) is Some by {
            assert(init[i] == names[i]);
        }
        assert forall|i: int|
            0 <= i < names.len() implies priority(best_kind(names)) <= priority(
                marker_kind(#[trigger] names[i])->Some_0,
            ) by {
            if i < init.len() {
                assert(init[i] == names[i]);
            }
        }
        if init.len() > 0 {
            let j = choose|j: int|
                0 <= j < init.len() && marker_kind(#[trigger] init[j]) == Some(best_kind(init));
            assert(names[j] == init[j]);
        } else {
            assert(marker_kind(names[names.len() - 1]) == Some(best_kind(names)));
        }
        if exists|i: int| 0 <= i < names.len() && marker_kind(#[trigger] names[i]) == Some(ModuleKind::Node) {
            let i = choose|i: int| 0 <= i < names.len() && marker_kind(#[trigger] names[i]) == Some(ModuleKind::Node);
            assert(priority(best_kind(names)) <= 0);
        }
    }
}

proof fn lemma_in_other(a: Seq<Seq<char>>, b: Seq<Seq<char>>, i: int) -> (j: int)
    requires
        a.to_multiset() == b.to_multiset(),
        0 <= i < a.len(),
    ensures
        0 <= j < b.len() && b[j] == a[i],
{
    broadcast use vstd::seq_lib::group_to_multiset_ensures;

    assert(a.to_multiset().contains(a[i]));
    assert(b.contains(a[i]));
    choose|j: int| 0 <= j < b.len() && b[j] == a[i]
}

/// The tie-break does not depend on the order of the markers: two marker
/// lists holding the same names give the same kind.
pub proof fn law_kind_order_independent(a: Seq<Seq<char>>, b: Seq<Seq<char>>)
    requires
        forall|i: int| 0 <= i < a.len() ==> marker_kind(#[trigger] a[i]) is Some,
        a.to_multiset() == b.to_multiset(),
    ensures
        best_kind(a) == best_kind(b),
{
    broadcast use vstd::seq_lib::group_to_multiset_ensures;

    assert forall|j: int| 0 <= j < b.len() implies marker_kind(#[trigger] b[j]) is Some by {
        let i = lemma_in_other(b, a, j);
        assert(marker_kind(a[i]) is Some);
    }
    law_kind_tie_break(a);
    law_kind_tie_break(b);
    if b.len() > 0 && a.len() == 0 {
        let i = lemma_in_other(b, a, 0);
    }
    if a.len() > 0 {
        let i = choose|i: int| 0 <= i < a.len() && marker_kind(#[trigger] a[i]) == Some(best_kind(a));
        let j = lemma_in_other(a, b, i);
        assert(priority(best_kind(b)) <= priority(marker_kind(b[j])->Some_0));
        let k = choose|k: int| 0 <= k < b.len() && marker_kind(#[trigger] b[k]) == Some(best_kind(b));
        let l = lemma_in_other(b, a, k);
        assert(priority(best_kind(a)) <= priority(marker_kind(a[l])->Some_0));
    }
}

/// Scans every directory's direct file children for manifest names.
pub fn collect_module_candidates(tree: &Tree) -> (r: Vec<ModuleCandidate>)
    requires
        tree.wf(),
    ensures
        r@.map_values(|c: ModuleCandidate| candidate_view(c)) == candidates_upto(
            tree.nodes@,
            tree.nodes.len() as int,
        ),
{
    let mut candidates: Vec<ModuleCandidate> = Vec::new();
    let mut node_id: usize = 0;
    while node_id < tree.nodes.len()
        invariant
            tree.wf(),
            node_id <= tree.nodes.len(),
            candidates@.map_values(|c: ModuleCandidate| candidate_view(c)) == candidates_upto(
                tree.nodes@,
                node_id as int,
            ),
        decreases tree.nodes.len() - node_id,
    {
        let node = &tree.nodes[node_id];
        let ghost prev = candidates@;
        if node.kind == NodeKind::Dir {
            let mut markers: Vec<String> = Vec::new();
            let mut kind = ModuleKind::Unknown;
            let mut i: usize = 0;
            while i < node.children.len()
                invariant
                    tree.wf(),
                    node_id < tree.nodes.len(),
                    node == &tree.nodes@[node_id as int],
                    i <= node.children.len(),
                    texts(markers@) == found_markers(tree.nodes@, node.children@.take(i as int)),
                    kind == best_kind(texts(markers@)),
                decreases node.children.len() - i,
            {
                let child_id = node.children[i];
                assert(node.children@[i as int] == tree.nodes@[node_id as int].children@[i as int]);
                let child = &tree.nodes[child_id];
                proof {
                    assert(node.children@.take(i as int + 1).drop_last() =~= node.children@.take(
                        i as int,
                    ));
                }
                if child.kind == NodeKind::File {
                    match marker_kind_for_file(child.name.as_str()) {
                        Some(k) => {
                            let ghost before = markers@;
                            markers.push(child.name.clone());
                            proof {
                                assert(texts(markers@) =~= texts(before).push(child.name@));
                                assert(texts(markers@).drop_last() =~= texts(before));
                            }
                            if kind_priority(&k) < kind_priority(&kind) {
                                kind = k;
                            }
                        },
                        None => {},
                    }
                }
                i = i + 1;
            }
            assert(node.children@.take(node.children.len() as int) =~= node.children@);
            if markers.len() > 0 {
                candidates.push(ModuleCandidate { node_id, kind, markers });
                proof {
                    assert(candidates@.map_values(|c: ModuleCandidate| candidate_view(c))
                        =~= prev.map_values(|c: ModuleCandidate| candidate_view(c)).push(
                        candidate_view(candidates@.last()),
                    ));
                }
            }
        }
        node_id = node_id + 1;
    }
    candidates
}

/// Whether `path` lies inside (or is) one of `roots`, comparing whole
/// segments.
pub open spec fn within_any(path: Seq<Seq<char>>, roots: Seq<Seq<Seq<char>>>) -> bool {
    exists|i: int| 0 <= i < roots.len() && #[trigger] seg_prefix(roots[i], path)
}

pub open spec fn root_paths(ws: Option<&WorkspaceResolved>) -> Seq<Seq<Seq<char>>> {
    match ws {
        Some(w) => w.package_roots@.map_values(|p: Vec<String>| texts(p@)),
        None => Seq::empty(),
    }
}

/// Whether a candidate at `path` is annotated: always when no package root
/// is known, else only the scan root and paths inside a package root.
pub open spec fn annotation_allowed(path: Seq<Seq<char>>, roots: Seq<Seq<Seq<char>>>) -> bool {
    roots.len() == 0 || path.len() == 0 || within_any(path, roots)
}

fn is_within_any(path: &Vec<String>, roots: &Vec<Vec<String>>) -> (r: bool)
    ensures
        r == within_any(texts(path@), roots@.map_values(|p: Vec<String>| texts(p@))),
{
    let ghost rs = roots@.map_values(|p: Vec<String>| texts(p@));
    let mut i: usize = 0;
    while i < roots.len()
        invariant
            i <= roots.len(),
            rs == roots@.map_values(|p: Vec<String>| texts(p@)),
            forall|q: int| 0 <= q < i ==> !seg_prefix(#[trigger] rs[q], texts(path@)),
        decreases roots.len() - i,
    {
        if is_seg_prefix(&roots[i], path) {
            assert(rs[i as int] == texts(roots@[i as int]@));
            return true;
        }
        i = i + 1;
    }
    false
}

/// Whether the candidate at node `node_id` is annotated under `workspace`.
pub fn should_annotate(tree: &Tree, node_id: usize, workspace: Option<&WorkspaceResolved>) -> (r: bool)
    requires
        node_id < tree.nodes.len(),
    ensures
        r == annotation_allowed(texts(tree.nodes@[node_id as int].rel_path@), root_paths(workspace)),
{
    let rel = &tree.nodes[node_id].rel_path;
    match workspace {
        Some(w) => {
            if w.package_roots.len() == 0 || rel.len() == 0 {
                true
            } else {
                is_within_any(rel, &w.package_roots)
            }
        },
        None => true,
    }
}

/// A module annotation as plain values.
pub open spec fn module_view(m: Option<ModuleInfo>) -> Option<(ModuleKind, Option<Seq<char>>, Seq<Seq<char>>)> {
    match m {
        Some(mi) => Some((mi.kind, opt_text(mi.summary), texts(mi.markers@))),
        None => None,
    }
}

/// The annotation of node `i` after the first `n` candidates were applied:
/// the last allowed candidate for that node wins, with its summary.
pub open spec fn module_after(
    nodes: Seq<Node>,
    cands: Seq<ModuleCandidate>,
    roots: Seq<Seq<Seq<char>>>,
    summaries: Seq<Option<String>>,
    i: int,
    n: int,
) -> Option<(ModuleKind, Option<Seq<char>>, Seq<Seq<char>>)>
    decreases n,
{
    if n <= 0 {
        module_view(nodes[i].module)
    } else {
        let c = cands[n - 1];
        if c.node_id == i && annotation_allowed(texts(nodes[i].rel_path@), roots) {
            Some((c.kind, opt_text(summaries[n - 1]), texts(c.markers@)))
        } else {
            module_after(nodes, cands, roots, summaries, i, n - 1)
        }
    }
}

/// The same node with only its annotation possibly changed.
pub open spec fn same_but_module(a: Node, b: Node) -> bool {
    &&& a.name == b.name
    &&& a.rel_path == b.rel_path
    &&& a.kind == b.kind
    &&& a.children == b.children
    &&& a.error == b.error
}

/// Attaches each allowed candidate's kind, markers and summary (the
/// summary of candidate `j` is `summaries[j]`) to its directory.
pub fn annotate_modules(
    tree: &mut Tree,
    candidates: &Vec<ModuleCandidate>,
    workspace: Option<&WorkspaceResolved>,
    summaries: &Vec<Option<String>>,
)
    requires
        summaries.len() == candidates.len(),
        forall|j: int| 0 <= j < candidates.len() ==> #[trigger] candidates@[j].node_id < old(tree).nodes.len(),
    ensures
        final(tree).root_path == old(tree).root_path,
        final(tree).root == old(tree).root,
        final(tree).truncated == old(tree).truncated,
        final(tree).truncated_at == old(tree).truncated_at,
        final(tree).nodes.len() == old(tree).nodes.len(),
        forall|i: int|
            0 <= i < final(tree).nodes.len() ==> same_but_module(
                #[trigger] final(tree).nodes@[i],
                old(tree).nodes@[i],
            ),
        forall|i: int|
            0 <= i < final(tree).nodes.len() ==> module_view(#[trigger] final(tree).nodes@[i].module)
                == module_after(
                old(tree).nodes@,
                candidates@,
                root_paths(workspace),
                summaries@,
                i,
                candidates.len() as int,
            ),
{
    let ghost start = tree.nodes@;
    let mut j: usize = 0;
    while j < candidates.len()
        invariant
            summaries.len() == candidates.len(),
            forall|q: int| 0 <= q < candidates.len() ==> #[trigger] candidates@[q].node_id < start.len(),
            j <= candidates.len(),
            tree.root_path == old(tree).root_path,
            tree.root == old(tree).root,
            tree.truncated == old(tree).truncated,
            tree.truncated_at == old(tree).truncated_at,
            start == old(tree).nodes@,
            tree.nodes.len() == start.len(),
            forall|i: int| 0 <= i < tree.nodes.len() ==> same_but_module(#[trigger] tree.nodes@[i], start[i]),
            forall|i: int|
                0 <= i < tree.nodes.len() ==> module_view(#[trigger] tree.nodes@[i].module) == module_after(
                    start,
                    candidates@,
                    root_paths(workspace),
                    summaries@,
                    i,
                    j as int,
                ),
        decreases candidates.len() - j,
    {
        let candidate = &candidates[j];
        let id = candidate.node_id;
        let allowed = should_annotate(tree, id, workspace);
        assert(texts(tree.nodes@[id as int].rel_path@) == texts(start[id as int].rel_path@));
        if allowed {
            let info = ModuleInfo {
                kind: candidate.kind,
                summary: clone_opt(&summaries[j]),
                markers: clone_strings(&candidate.markers),
            };
            tree.nodes[id].module = Some(info);
        }
        proof {
            assert forall|i: int| 0 <= i < tree.nodes.len() implies module_view(
                #[trigger] tree.nodes@[i].module,
            ) == module_after(start, candidates@, root_paths(workspace), summaries@, i, j + 1) by {
                assert(texts(tree.nodes@[i].rel_path@) == texts(start[i].rel_path@));
            }
        }
        j = j + 1;
    }
}

} // verus!
