//! Lens-aware rendering: child selection, ordering, capping and connector
//! layout, specified line by line.

use vstd::prelude::*;
use vstd::string::*;

use crate::charseq::{decimal, lex_lt, lower_of, substring, texts, to_chars, usize_text};
use crate::config::Config;
use crate::model::{
    module_tag, workspace_label, Format, Lens, ModuleInfo, Node, NodeKind, Tree, WorkspaceKind,
    WorkspaceResolved,
};
use crate::order::{
    kind_rank_spec, lemma_before_incomparable, lemma_before_irreflexive, lemma_before_transitive,
    lemma_lex_irreflexive, lemma_sort_multiset, lemma_sort_sorted, node_before, sort_children,
    sort_ids,
};
use crate::paths::{is_seg_prefix, seg_prefix};

verus! {

broadcast use vstd::seq_lib::group_to_multiset_ensures;

/// Whether some string of `v` has the text `n`.
pub open spec fn names_contain(v: Seq<String>, n: Seq<char>) -> bool {
    exists|i: int| 0 <= i < v.len() && #[trigger] v[i]@ == n
}

/// Whether the directory path `p` lies on the way to an annotated module.
pub open spec fn on_module_path(nodes: Seq<Node>, p: Seq<Seq<char>>) -> bool {
    exists|i: int|
        0 <= i < nodes.len() && nodes[i].module is Some && #[trigger] seg_prefix(
            p,
            texts(nodes[i].rel_path@),
        )
}

pub open spec fn parent_markers(p: Node) -> Seq<String> {
    match p.module {
        Some(m) => m.markers@,
        None => Seq::empty(),
    }
}

/// Whether `child` of `parent` is shown under the configured lens.
pub open spec fn eligible(tree: Tree, cfg: Config, parent: int, child: usize) -> bool {
    let p = tree.nodes@[parent];
    let c = tree.nodes@[child as int];
    if cfg.lens == Lens::Files {
        true
    } else if c.kind == NodeKind::Dir {
        (p.module is Some && names_contain(cfg.key_dirs@, c.name@)) || on_module_path(
            tree.nodes@,
            texts(c.rel_path@),
        )
    } else {
        p.module is Some && names_contain(parent_markers(p), c.name@)
    }
}

pub open spec fn eligible_pred(tree: Tree, cfg: Config, parent: int) -> spec_fn(usize) -> bool {
    |c: usize| eligible(tree, cfg, parent, c)
}

/// The eligible children of `parent`, in rendering order.
pub open spec fn selected_children(tree: Tree, cfg: Config, parent: int) -> Seq<usize> {
    sort_ids(tree.nodes@, tree.nodes@[parent].children@.filter(eligible_pred(tree, cfg, parent)))
}

pub open spec fn glyph_mid(unicode: bool) -> Seq<char> {
    if unicode {
        "\u{251C}\u{2500}\u{2500} "@
    } else {
        "|-- "@
    }
}

pub open spec fn glyph_end(unicode: bool) -> Seq<char> {
    if unicode {
        "\u{2514}\u{2500}\u{2500} "@
    } else {
        "`-- "@
    }
}

pub open spec fn glyph_vert(unicode: bool) -> Seq<char> {
    if unicode {
        "\u{2502}   "@
    } else {
        "|   "@
    }
}

/// Blank indentation below a last child, the same in both styles.
pub open spec fn glyph_space(unicode: bool) -> Seq<char> {
    "    "@
}

/// The tag and summary appended to an annotated node.
pub open spec fn module_suffix(m: Option<ModuleInfo>) -> Seq<char> {
    match m {
        Some(mi) => "  "@ + module_tag(mi.kind) + match mi.summary {
            Some(s) => "  "@ + s@,
            None => Seq::empty(),
        },
        None => Seq::empty(),
    }
}

/// The label of a non-root node.
pub open spec fn node_label(n: Node) -> Seq<char> {
    let base = if n.kind == NodeKind::Dir {
        n.name@ + "/"@
    } else if n.kind == NodeKind::Error {
        match n.error {
            Some(e) => n.name@ + " ("@ + e@ + ")"@,
            None => n.name@,
        }
    } else {
        n.name@
    };
    base + module_suffix(n.module)
}

/// The label of the root line.
pub open spec fn root_label(n: Node, ws: Option<WorkspaceKind>) -> Seq<char> {
    let base = if n.kind == NodeKind::Dir {
        n.name@ + "/"@
    } else {
        n.name@
    };
    let wsp = match ws {
        Some(k) => "  [workspace: "@ + workspace_label(k) + "]"@,
        None => Seq::empty(),
    };
    base + wsp + module_suffix(n.module)
}

pub open spec fn ws_kind(ws: Option<&WorkspaceResolved>) -> Option<WorkspaceKind> {
    match ws {
        Some(w) => Some(w.kind),
        None => None,
    }
}

/// The line that stands for `omitted` children beyond the cap.
pub open spec fn more_line(prefix: Seq<char>, unicode: bool, omitted: nat) -> Seq<char> {
    prefix + glyph_end(unicode) + "... ("@ + decimal(omitted) + " more)"@
}

/// How many of `n` eligible children are displayed under the cap.
pub open spec fn shown_count(n: int, cap: usize) -> int {
    if n > cap {
        cap as int
    } else {
        n
    }
}

/// The lines below directory `id`, each starting with `prefix`.
pub open spec fn dir_lines(tree: Tree, cfg: Config, id: int, prefix: Seq<char>) -> Seq<Seq<char>>
    decreases tree.nodes.len() - id, 1int, 0int,
{
    let kids = selected_children(tree, cfg, id);
    let shown = shown_count(kids.len() as int, cfg.max_children);
    let omitted = kids.len() - shown;
    child_lines(tree, cfg, id, prefix, kids, shown, omitted, 0) + if omitted > 0 {
        seq![more_line(prefix, cfg.unicode, omitted as nat)]
    } else {
        Seq::empty()
    }
}

/// The lines of the displayed children `kids[k..shown]` of `id` and of
/// their subtrees.
pub open spec fn child_lines(
    tree: Tree,
    cfg: Config,
    id: int,
    prefix: Seq<char>,
    kids: Seq<usize>,
    shown: int,
    omitted: int,
    k: int,
) -> Seq<Seq<char>>
    decreases tree.nodes.len() - id, 0int, shown - k,
{
    if k < 0 || k >= shown {
        Seq::empty()
    } else {
        let c = kids[k];
        let last = omitted == 0 && k == shown - 1;
        let line = prefix + (if last {
            glyph_end(cfg.unicode)
        } else {
            glyph_mid(cfg.unicode)
        }) + node_label(tree.nodes@[c as int]);
        let below = if tree.nodes@[c as int].kind == NodeKind::Dir && id < c < tree.nodes.len() {
            dir_lines(
                tree,
                cfg,
                c as int,
                prefix + if last {
                    glyph_space(cfg.unicode)
                } else {
                    glyph_vert(cfg.unicode)
                },
            )
        } else {
            Seq::empty()
        };
        seq![line] + below + child_lines(tree, cfg, id, prefix, kids, shown, omitted, k + 1)
    }
}

pub open spec fn truncation_line(max_items: usize) -> Seq<char> {
    "... (truncated after reaching max-items="@ + decimal(max_items as nat) + ")"@
}

/// Every line of the rendered tree, root first.
pub open spec fn text_lines(tree: Tree, ws: Option<WorkspaceKind>, cfg: Config) -> Seq<Seq<char>> {
    seq![root_label(tree.nodes@[tree.root as int], ws)] + dir_lines(tree, cfg, tree.root as int, Seq::empty())
        + if tree.truncated {
        seq![truncation_line(cfg.max_items)]
    } else {
        Seq::empty()
    }
}

/// Lines joined with single newlines, without a trailing one.
pub open spec fn join_lines(s: Seq<Seq<char>>) -> Seq<char>
    decreases s.len(),
{
    if s.len() == 0 {
        Seq::empty()
    } else if s.len() == 1 {
        s[0]
    } else {
        join_lines(s.drop_last()) + "\n"@ + s.last()
    }
}

/// The indented text of a tree.
pub open spec fn text_of(tree: Tree, ws: Option<WorkspaceKind>, cfg: Config) -> Seq<char> {
    join_lines(text_lines(tree, ws, cfg))
}

/// Text wrapped in a fenced code block.
pub open spec fn fenced(text: Seq<char>) -> Seq<char> {
    "```text\n"@ + text + "\n"@ + "```"@
}

/// `t` without its trailing newlines.
pub open spec fn trim_trailing_newlines(t: Seq<char>) -> Seq<char>
    decreases t.len(),
{
    if t.len() > 0 && t.last() == '\n' {
        trim_trailing_newlines(t.drop_last())
    } else {
        t
    }
}

/// `t` ending in exactly one line terminator.
pub open spec fn with_newline(t: Seq<char>) -> Seq<char> {
    trim_trailing_newlines(t) + "\n"@
}

proof fn lemma_trimmed_has_no_final_newline(t: Seq<char>)
    ensures
        trim_trailing_newlines(t).len() == 0 || trim_trailing_newlines(t).last() != '\n',
    decreases t.len(),
{
    if t.len() > 0 && t.last() == '\n' {
        lemma_trimmed_has_no_final_newline(t.drop_last());
    }
}

/// Single line terminator: the output always ends in a newline, and never
/// in two.
pub proof fn law_single_trailing_newline(tree: Tree, ws: Option<WorkspaceKind>, cfg: Config)
    ensures
        ({
            let out = output_of(tree, ws, cfg);
            &&& out.len() > 0 && out.last() == '\n'
            &&& out.len() < 2 || out[out.len() - 2] != '\n'
        }),
{
    let text = text_of(tree, ws, cfg);
    let body = match cfg.format {
        Format::Text => text,
        Format::Md => fenced(text),
    };
    lemma_trimmed_has_no_final_newline(body);
    reveal_strlit("\n");
    let out = output_of(tree, ws, cfg);
    let t = trim_trailing_newlines(body);
    assert(out =~= t.push('\n'));
    if out.len() >= 2 {
        assert(out[out.len() - 2] == t.last());
    }
}

/// Connector width: every connector glyph is four characters wide, in
/// both styles.
pub proof fn law_connector_width(unicode: bool)
    ensures
        glyph_mid(unicode).len() == 4,
        glyph_end(unicode).len() == 4,
        glyph_vert(unicode).len() == 4,
        glyph_space(unicode).len() == 4,
{
    reveal_strlit("\u{251C}\u{2500}\u{2500} ");
    reveal_strlit("\u{2514}\u{2500}\u{2500} ");
    reveal_strlit("\u{2502}   ");
    reveal_strlit("    ");
    reveal_strlit("|-- ");
    reveal_strlit("`-- ");
    reveal_strlit("|   ");
}

/// The final output for the configured format.
pub open spec fn output_of(tree: Tree, ws: Option<WorkspaceKind>, cfg: Config) -> Seq<char> {
    let text = text_of(tree, ws, cfg);
    with_newline(
        match cfg.format {
            Format::Text => text,
            Format::Md => fenced(text),
        },
    )
}

proof fn lemma_filter_subset<A>(s: Seq<A>, p: spec_fn(A) -> bool, i: int)
    requires
        0 <= i < s.filter(p).len(),
    ensures
        s.contains(s.filter(p)[i]),
    decreases s.len(),
{
    reveal(Seq::filter);
    if s.len() > 0 {
        let sub = s.drop_last().filter(p);
        if i < sub.len() {
            lemma_filter_subset(s.drop_last(), p, i);
            let j = choose|j: int| 0 <= j < s.drop_last().len() && s.drop_last()[j] == sub[i];
            assert(s[j] == s.filter(p)[i]);
        } else {
            assert(s[s.len() - 1] == s.filter(p)[i]);
        }
    }
}

proof fn lemma_filter_step<A>(s: Seq<A>, p: spec_fn(A) -> bool, i: int)
    requires
        0 <= i < s.len(),
    ensures
        s.take(i + 1).filter(p) == if p(s[i]) {
            s.take(i).filter(p).push(s[i])
        } else {
            s.take(i).filter(p)
        },
{
    reveal(Seq::filter);
    assert(s.take(i + 1).drop_last() =~= s.take(i));
}

/// Every selected child of a directory is one of its children, and so has a
/// larger index in a well-formed tree.
pub proof fn lemma_selected_in_bounds(tree: Tree, cfg: Config, id: int, k: int)
    requires
        tree.wf(),
        0 <= id < tree.nodes.len(),
        0 <= k < selected_children(tree, cfg, id).len(),
    ensures
        tree.nodes@[id].children@.contains(selected_children(tree, cfg, id)[k]),
        id < selected_children(tree, cfg, id)[k] < tree.nodes.len(),
{
    let kids = tree.nodes@[id].children@;
    let f = kids.filter(eligible_pred(tree, cfg, id));
    let sel = selected_children(tree, cfg, id);
    lemma_sort_multiset(tree.nodes@, f);
    assert(sel.to_multiset().contains(sel[k]));
    assert(f.contains(sel[k]));
    let j = choose|j: int| 0 <= j < f.len() && f[j] == sel[k];
    lemma_filter_subset(kids, eligible_pred(tree, cfg, id), j);
    let q = choose|q: int| 0 <= q < kids.len() && kids[q] == sel[k];
    assert(tree.nodes@[id].children@[q] == sel[k]);
}

/// Sibling order: in every directory, a later displayed child never
/// precedes an earlier one, so directories come before files and error
/// entries, and within a rank names are ordered case-insensitively, then
/// exactly.
pub proof fn law_sibling_order(tree: Tree, cfg: Config, id: int, i: int, j: int)
    requires
        0 <= i < j < selected_children(tree, cfg, id).len(),
    ensures
        ({
            let sel = selected_children(tree, cfg, id);
            let a = tree.nodes@[sel[i] as int];
            let b = tree.nodes@[sel[j] as int];
            &&& kind_rank_spec(a.kind) <= kind_rank_spec(b.kind)
            &&& kind_rank_spec(a.kind) == kind_rank_spec(b.kind) ==> !lex_lt(
                lower_of(b.name@),
                lower_of(a.name@),
            )
            &&& kind_rank_spec(a.kind) == kind_rank_spec(b.kind) && lower_of(a.name@) == lower_of(
                b.name@,
            ) ==> !lex_lt(b.name@, a.name@)
        }),
{
    let f = tree.nodes@[id].children@.filter(eligible_pred(tree, cfg, id));
    lemma_sort_sorted(tree.nodes@, f);
    let sel = selected_children(tree, cfg, id);
    assert(!node_before(tree.nodes@[sel[j] as int], tree.nodes@[sel[i] as int]));
}

/// The sibling order is a strict weak ordering: irreflexive, transitive,
/// and two siblings that neither precedes are interchangeable (same rank,
/// same name).
pub proof fn law_sibling_order_strict_weak(a: Node, b: Node, c: Node)
    ensures
        !node_before(a, a),
        node_before(a, b) && node_before(b, c) ==> node_before(a, c),
        !node_before(a, b) && !node_before(b, a) ==> kind_rank_spec(a.kind) == kind_rank_spec(
            b.kind,
        ) && a.name@ == b.name@,
        (!node_before(a, b) && !node_before(b, a) && !node_before(b, c) && !node_before(c, b))
            ==> !node_before(a, c) && !node_before(c, a),
{
    lemma_before_irreflexive(a);
    if node_before(a, b) && node_before(b, c) {
        lemma_before_transitive(a, b, c);
    }
    if !node_before(a, b) && !node_before(b, a) {
        lemma_before_incomparable(a, b);
    }
    if !node_before(a, b) && !node_before(b, a) && !node_before(b, c) && !node_before(c, b) {
        lemma_before_incomparable(b, c);
        lemma_lex_irreflexive(lower_of(a.name@));
        lemma_lex_irreflexive(a.name@);
    }
}

/// Per-directory cap: when more children are eligible than the cap allows,
/// exactly the first `cap` of them are rendered, each with a non-final
/// connector, followed by one `... (k more)` line where `k` is the number
/// left out.
pub proof fn law_child_cap(tree: Tree, cfg: Config, id: int, prefix: Seq<char>)
    requires
        selected_children(tree, cfg, id).len() > cfg.max_children,
    ensures
        ({
            let sel = selected_children(tree, cfg, id);
            let cap = cfg.max_children as int;
            let k = sel.len() - cap;
            &&& dir_lines(tree, cfg, id, prefix) == child_lines(
                tree,
                cfg,
                id,
                prefix,
                sel,
                cap,
                k,
                0,
            ) + seq![more_line(prefix, cfg.unicode, k as nat)]
            &&& forall|q: int|
                0 <= q < cap ==> (#[trigger] child_lines(tree, cfg, id, prefix, sel, cap, k, q))[0]
                    == prefix + glyph_mid(cfg.unicode) + node_label(tree.nodes@[sel[q] as int])
            &&& child_lines(tree, cfg, id, prefix, sel, cap, k, cap) == Seq::<Seq<char>>::empty()
        }),
{
}

proof fn lemma_filter_all<A>(s: Seq<A>, p: spec_fn(A) -> bool)
    requires
        forall|x: A| #[trigger] p(x),
    ensures
        s.filter(p) == s,
    decreases s.len(),
{
    reveal(Seq::filter);
    if s.len() > 0 {
        lemma_filter_all(s.drop_last(), p);
        assert(s.drop_last().push(s.last()) =~= s);
    }
}

/// Lens filtering: under the module lens a file or error entry is shown
/// only as a detected marker of its annotated parent; under the files lens
/// every child is shown.
pub proof fn law_lens_filtering(tree: Tree, cfg: Config, id: int, c: usize)
    ensures
        cfg.lens == Lens::Module && selected_children(tree, cfg, id).contains(c)
            && tree.nodes@[c as int].kind != NodeKind::Dir ==> tree.nodes@[id].module is Some
            && names_contain(parent_markers(tree.nodes@[id]), tree.nodes@[c as int].name@),
        cfg.lens == Lens::Files ==> selected_children(tree, cfg, id).to_multiset()
            == tree.nodes@[id].children@.to_multiset(),
{
    let kids = tree.nodes@[id].children@;
    let pred = eligible_pred(tree, cfg, id);
    let f = kids.filter(pred);
    lemma_sort_multiset(tree.nodes@, f);
    if cfg.lens == Lens::Module && selected_children(tree, cfg, id).contains(c) {
        let sel = selected_children(tree, cfg, id);
        let q = choose|q: int| 0 <= q < sel.len() && sel[q] == c;
        assert(sel.to_multiset().contains(c));
        assert(f.contains(c));
        let j = choose|j: int| 0 <= j < f.len() && f[j] == c;
        #[allow(deprecated)]
        kids.filter_lemma(pred);
        assert(pred(f[j]));
    }
    if cfg.lens == Lens::Files {
        lemma_filter_all(kids, pred);
    }
}

/// Rendering has no hidden inputs: two renders of the same tree, workspace
/// and configuration give the same text.
pub proof fn law_render_deterministic(
    tree: Tree,
    ws: Option<WorkspaceKind>,
    cfg: Config,
    first: Seq<char>,
    second: Seq<char>,
)
    requires
        first == output_of(tree, ws, cfg),
        second == output_of(tree, ws, cfg),
    ensures
        first == second,
{
}

/// The connector glyphs of one render.
#[derive(Clone, Copy)]
struct TreeChars {
    mid: &'static str,
    end: &'static str,
    vert: &'static str,
    space: &'static str,
}

impl TreeChars {
    spec fn glyphs_of(self, unicode: bool) -> bool {
        &&& self.mid@ == glyph_mid(unicode)
        &&& self.end@ == glyph_end(unicode)
        &&& self.vert@ == glyph_vert(unicode)
        &&& self.space@ == glyph_space(unicode)
    }
}

fn chars(unicode: bool) -> (r: TreeChars)
    ensures
        r.glyphs_of(unicode),
{
    if unicode {
        TreeChars {
            mid: "\u{251C}\u{2500}\u{2500} ",
            end: "\u{2514}\u{2500}\u{2500} ",
            vert: "\u{2502}   ",
            space: "    ",
        }
    } else {
        TreeChars { mid: "|-- ", end: "`-- ", vert: "|   ", space: "    " }
    }
}

fn contains_name(v: &Vec<String>, n: &String) -> (r: bool)
    ensures
        r == names_contain(v@, n@),
{
    let mut i: usize = 0;
    while i < v.len()
        invariant
            i <= v.len(),
            forall|q: int| 0 <= q < i ==> v@[q]@ != n@,
        decreases v.len() - i,
    {
        if v[i] == *n {
            return true;
        }
        i = i + 1;
    }
    false
}

/// The indices of the annotated nodes.
fn annotated_nodes(tree: &Tree) -> (r: Vec<usize>)
    ensures
        forall|i: int| 0 <= i < r.len() ==> r@[i] < tree.nodes.len(),
        forall|i: int| 0 <= i < r.len() ==> (#[trigger] tree.nodes@[r@[i] as int]).module is Some,
        forall|j: int|
            0 <= j < tree.nodes.len() && (#[trigger] tree.nodes@[j]).module is Some ==> r@.contains(
                j as usize,
            ),
{
    let mut r: Vec<usize> = Vec::new();
    let mut i: usize = 0;
    while i < tree.nodes.len()
        invariant
            i <= tree.nodes.len(),
            forall|q: int| 0 <= q < r.len() ==> r@[q] < i,
            forall|q: int| 0 <= q < r.len() ==> (#[trigger] tree.nodes@[r@[q] as int]).module is Some,
            forall|j: int|
                0 <= j < i && (#[trigger] tree.nodes@[j]).module is Some ==> r@.contains(j as usize),
        decreases tree.nodes.len() - i,
    {
        let ghost old_r = r@;
        if tree.nodes[i].module.is_some() {
            r.push(i);
            assert(r@[r.len() - 1] == i);
        }
        assert forall|j: int|
            0 <= j < i + 1 && (#[trigger] tree.nodes@[j]).module is Some implies r@.contains(
                j as usize,
            ) by {
            if j < i {
                let q = choose|q: int| 0 <= q < old_r.len() && old_r[q] == j as usize;
                assert(r@[q] == old_r[q]);
            }
        }
        i = i + 1;
    }
    r
}

fn push_module_suffix(out: &mut String, m: &Option<ModuleInfo>)
    ensures
        final(out)@ == old(out)@ + module_suffix(*m),
{
    match m {
        Some(mi) => {
            out.append("  ");
            out.append(mi.kind.tag());
            match &mi.summary {
                Some(s) => {
                    out.append("  ");
                    out.append(s.as_str());
                },
                None => {},
            }
        },
        None => {},
    }
    assert(final(out)@ =~= old(out)@ + module_suffix(*m));
}

fn format_node_label(node: &Node) -> (r: String)
    ensures
        r@ == node_label(*node),
{
    let mut base = String::new();
    base.append(node.name.as_str());
    match node.kind {
        NodeKind::Dir => {
            base.append("/");
        },
        NodeKind::Error => {
            match &node.error {
                Some(err) => {
                    base.append(" (");
                    base.append(err.as_str());
                    base.append(")");
                },
                None => {},
            }
        },
        NodeKind::File => {},
    }
    let ghost b = base@;
    push_module_suffix(&mut base, &node.module);
    assert(base@ =~= node_label(*node));
    base
}

fn format_root_label(node: &Node, workspace: Option<&WorkspaceResolved>) -> (r: String)
    ensures
        r@ == root_label(*node, ws_kind(workspace)),
{
    let mut label = String::new();
    label.append(node.name.as_str());
    if node.kind == NodeKind::Dir {
        label.append("/");
    }
    match workspace {
        Some(w) => {
            label.append("  [workspace: ");
            label.append(w.kind.label());
            label.append("]");
        },
        None => {},
    }
    push_module_suffix(&mut label, &node.module);
    assert(label@ =~= root_label(*node, ws_kind(workspace)));
    label
}

fn join_with_newlines(lines: &Vec<String>) -> (r: String)
    ensures
        r@ == join_lines(texts(lines@)),
{
    let mut out = String::new();
    let mut i: usize = 0;
    while i < lines.len()
        invariant
            i <= lines.len(),
            out@ == join_lines(texts(lines@).take(i as int)),
        decreases lines.len() - i,
    {
        proof {
            let t = texts(lines@).take(i as int + 1);
            assert(t.drop_last() =~= texts(lines@).take(i as int));
            if i == 0 {
                assert(texts(lines@).take(0) =~= Seq::<Seq<char>>::empty());
                assert(""@ =~= Seq::<char>::empty()) by {
                    reveal_strlit("");
                }
            }
        }
        if i > 0 {
            out.append("\n");
        }
        out.append(lines[i].as_str());
        i = i + 1;
    }
    assert(texts(lines@).take(lines.len() as int) =~= texts(lines@));
    out
}

/// Renders the indented text of `tree`: the root line, the selected
/// children of every displayed directory, and the truncation notice.
pub fn render_text(tree: &Tree, workspace: Option<&WorkspaceResolved>, config: &Config) -> (r: String)
    requires
        tree.wf(),
    ensures
        r@ == text_of(*tree, ws_kind(workspace), *config),
{
    let ctx = RenderContext {
        tree,
        chars: chars(config.unicode),
        module_nodes: annotated_nodes(tree),
        config,
    };
    let mut lines: Vec<String> = Vec::new();
    lines.push(format_root_label(&tree.nodes[tree.root], workspace));
    proof {
        reveal_strlit("");
    }
    assert(""@ =~= Seq::<char>::empty());
    ctx.render_children(tree.root, "", &mut lines);
    if tree.truncated {
        let count = usize_text(config.max_items);
        let mut notice = String::new();
        notice.append("... (truncated after reaching max-items=");
        notice.append(count.as_str());
        notice.append(")");
        let ghost before = texts(lines@);
        lines.push(notice);
        assert(texts(lines@) =~= before.push(notice@));
        assert(notice@ =~= truncation_line(config.max_items));
    }
    assert(texts(lines@) =~= text_lines(*tree, ws_kind(workspace), *config));
    join_with_newlines(&lines)
}

/// Wraps `text` verbatim in a fenced code block.
pub fn render_md(text: &str) -> (r: String)
    ensures
        r@ == fenced(text@),
{
    let mut out = String::new();
    out.append("```text\n");
    out.append(text);
    out.append("\n");
    out.append("```");
    assert(out@ =~= fenced(text@));
    out
}

/// The final output: the text in the configured format, ending with one
/// line terminator.
pub fn render(tree: &Tree, workspace: Option<&WorkspaceResolved>, config: &Config) -> (r: String)
    requires
        tree.wf(),
    ensures
        r@ == output_of(*tree, ws_kind(workspace), *config),
{
    let text = render_text(tree, workspace, config);
    let output = match config.format {
        Format::Text => text,
        Format::Md => render_md(text.as_str()),
    };
    let cs = to_chars(output.as_str());
    let mut end: usize = cs.len();
    assert(output@.take(end as int) =~= output@);
    while end > 0 && cs[end - 1] == '\n'
        invariant
            cs@ == output@,
            end <= cs.len(),
            trim_trailing_newlines(output@.take(end as int)) == trim_trailing_newlines(output@),
        decreases end,
    {
        assert(output@.take(end as int).drop_last() =~= output@.take(end - 1));
        end = end - 1;
    }
    assert(output@.take(end as int) =~= output@.subrange(0, end as int));
    let mut r = substring(output.as_str(), 0, end);
    r.append("\n");
    r
}

/// Everything one render reads.
struct RenderContext<'a> {
    tree: &'a Tree,
    chars: TreeChars,
    module_nodes: Vec<usize>,
    config: &'a Config,
}

impl<'a> RenderContext<'a> {
    spec fn ready(&self) -> bool {
        &&& self.tree.wf()
        &&& self.chars.glyphs_of(self.config.unicode)
        &&& forall|i: int| 0 <= i < self.module_nodes.len() ==> self.module_nodes@[i] < self.tree.nodes.len()
        &&& forall|i: int|
            0 <= i < self.module_nodes.len() ==> (#[trigger] self.tree.nodes@[self.module_nodes@[i] as int]).module is Some
        &&& forall|j: int|
            0 <= j < self.tree.nodes.len() && (#[trigger] self.tree.nodes@[j]).module is Some
                ==> self.module_nodes@.contains(j as usize)
    }

    fn on_module_path(&self, path: &Vec<String>) -> (r: bool)
        requires
            self.ready(),
        ensures
            r == on_module_path(self.tree.nodes@, texts(path@)),
    {
        let mut i: usize = 0;
        while i < self.module_nodes.len()
            invariant
                self.ready(),
                i <= self.module_nodes.len(),
                forall|q: int|
                    0 <= q < i ==> !seg_prefix(
                        texts(path@),
                        texts(self.tree.nodes@[self.module_nodes@[q] as int].rel_path@),
                    ),
            decreases self.module_nodes.len() - i,
        {
            let m = self.module_nodes[i];
            if is_seg_prefix(path, &self.tree.nodes[m].rel_path) {
                return true;
            }
            i = i + 1;
        }
        proof {
            if on_module_path(self.tree.nodes@, texts(path@)) {
                let j = choose|j: int|
                    0 <= j < self.tree.nodes.len() && self.tree.nodes@[j].module is Some
                        && #[trigger] seg_prefix(texts(path@), texts(self.tree.nodes@[j].rel_path@));
                assert(self.module_nodes@.contains(j as usize));
                let q = choose|q: int| 0 <= q < self.module_nodes.len() && self.module_nodes@[q] == j as usize;
                assert(false);
            }
        }
        false
    }

    fn is_eligible(&self, parent: usize, child: usize) -> (r: bool)
        requires
            self.ready(),
            parent < self.tree.nodes.len(),
            child < self.tree.nodes.len(),
        ensures
            r == eligible(*self.tree, *self.config, parent as int, child),
    {
        if self.config.lens == Lens::Files {
            return true;
        }
        let p = &self.tree.nodes[parent];
        let c = &self.tree.nodes[child];
        match c.kind {
            NodeKind::Dir => {
                let is_key_dir = p.module.is_some() && contains_name(&self.config.key_dirs, &c.name);
                is_key_dir || self.on_module_path(&c.rel_path)
            },
            NodeKind::File | NodeKind::Error => {
                match &p.module {
                    Some(m) => contains_name(&m.markers, &c.name),
                    None => false,
                }
            },
        }
    }

    fn render_children(&self, node_id: usize, prefix: &str, lines: &mut Vec<String>)
        requires
            self.ready(),
            node_id < self.tree.nodes.len(),
        ensures
            texts(final(lines)@) == texts(old(lines)@) + dir_lines(
                *self.tree,
                *self.config,
                node_id as int,
                prefix@,
            ),
        decreases self.tree.nodes.len() - node_id,
    {
        let ghost tree = *self.tree;
        let ghost cfg = *self.config;
        let children = self.select_children(node_id);
        let omitted: usize = if children.len() > self.config.max_children {
            children.len() - self.config.max_children
        } else {
            0
        };
        let display_count: usize = if omitted > 0 {
            self.config.max_children
        } else {
            children.len()
        };
        let ghost start = texts(lines@);
        let ghost all = child_lines(
            tree,
            cfg,
            node_id as int,
            prefix@,
            children@,
            display_count as int,
            omitted as int,
            0,
        );
        let mut idx: usize = 0;
        while idx < display_count
            invariant
                self.ready(),
                tree == *self.tree,
                cfg == *self.config,
                node_id < self.tree.nodes.len(),
                children@ == selected_children(tree, cfg, node_id as int),
                display_count == shown_count(children.len() as int, cfg.max_children),
                omitted == children.len() - display_count,
                idx <= display_count,
                texts(lines@) + child_lines(
                    tree,
                    cfg,
                    node_id as int,
                    prefix@,
                    children@,
                    display_count as int,
                    omitted as int,
                    idx as int,
                ) == start + all,
            decreases display_count - idx,
        {
            let child_id = children[idx];
            proof {
                lemma_selected_in_bounds(tree, cfg, node_id as int, idx as int);
            }
            let is_last = omitted == 0 && idx == display_count - 1;
            let child = &self.tree.nodes[child_id];
            let connector = if is_last {
                self.chars.end
            } else {
                self.chars.mid
            };
            let label = format_node_label(child);
            let mut line = String::new();
            line.append(prefix);
            line.append(connector);
            line.append(label.as_str());
            let ghost before = texts(lines@);
            lines.push(line);
            assert(texts(lines@) =~= before.push(line@));
            let mut new_prefix = String::new();
            new_prefix.append(prefix);
            new_prefix.append(
                if is_last {
                    self.chars.space
                } else {
                    self.chars.vert
                },
            );
            let ghost mid = texts(lines@);
            if child.kind == NodeKind::Dir {
                self.render_children(child_id, new_prefix.as_str(), lines);
            }
            proof {
                let rest = child_lines(
                    tree,
                    cfg,
                    node_id as int,
                    prefix@,
                    children@,
                    display_count as int,
                    omitted as int,
                    idx + 1,
                );
                let below = if child.kind == NodeKind::Dir {
                    dir_lines(tree, cfg, child_id as int, new_prefix@)
                } else {
                    Seq::empty()
                };
                assert(texts(lines@) =~= mid + below);
                assert(child_lines(
                    tree,
                    cfg,
                    node_id as int,
                    prefix@,
                    children@,
                    display_count as int,
                    omitted as int,
                    idx as int,
                ) == seq![line@] + below + rest);
                assert(texts(lines@) + rest =~= before + (seq![line@] + below + rest));
            }
            idx = idx + 1;
        }
        if omitted > 0 {
            let count = usize_text(omitted);
            let mut more = String::new();
            more.append(prefix);
            more.append(self.chars.end);
            more.append("... (");
            more.append(count.as_str());
            more.append(" more)");
            let ghost before = texts(lines@);
            lines.push(more);
            assert(texts(lines@) =~= before.push(more@));
            assert(more@ =~= more_line(prefix@, cfg.unicode, omitted as nat));
        }
        proof {
            assert(texts(lines@) =~= start + dir_lines(tree, cfg, node_id as int, prefix@));
        }
    }

    fn select_children(&self, node_id: usize) -> (r: Vec<usize>)
        requires
            self.ready(),
            node_id < self.tree.nodes.len(),
        ensures
            r@ == selected_children(*self.tree, *self.config, node_id as int),
    {
        let ghost pred = eligible_pred(*self.tree, *self.config, node_id as int);
        let kids = &self.tree.nodes[node_id].children;
        let mut kept: Vec<usize> = Vec::new();
        let mut i: usize = 0;
        while i < kids.len()
            invariant
                self.ready(),
                node_id < self.tree.nodes.len(),
                kids == &self.tree.nodes@[node_id as int].children,
                pred == eligible_pred(*self.tree, *self.config, node_id as int),
                i <= kids.len(),
                kept@ == kids@.take(i as int).filter(pred),
                forall|q: int| 0 <= q < kept.len() ==> kept@[q] < self.tree.nodes.len(),
            decreases kids.len() - i,
        {
            let c = kids[i];
            assert(kids@[i as int] == self.tree.nodes@[node_id as int].children@[i as int]);
            proof {
                lemma_filter_step(kids@, pred, i as int);
            }
            if self.is_eligible(node_id, c) {
                kept.push(c);
            }
            i = i + 1;
        }
        assert(kids@.take(kids.len() as int) =~= kids@);
        sort_children(&self.tree.nodes, kept)
    }
}

} // verus!
