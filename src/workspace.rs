//! Workspace detection at the scan root, and resolution of member globs to
//! package-root directories (with a naming-convention fallback).

use vstd::prelude::*;

use crate::charseq::{
    clone_strings, has_prefix, lines_of, same_text, split_lines, starts_with, strip_all,
    strip_all_text, texts, trim, trim_text,
};
use crate::doc::{as_string_list, field, field_of, get, get_opt, string_list, Doc};
use crate::error::SmarttreeError;
use crate::markers::ModuleCandidate;
use crate::model::{Node, NodeKind, Tree, WorkspaceInfo, WorkspaceKind};
use crate::paths::{parent_path, same_path};

verus! {

/// What the scan root holds of each workspace manifest, as read by the
/// caller. A manifest that is absent, or that does not read or parse where
/// it must, is `None`.
#[derive(Debug)]
pub struct RootManifests {
    /// `pnpm-workspace.yaml` is a file: the `packages` it declares (empty
    /// when it does not read or parse).
    pub pnpm_packages: Option<Vec<String>>,
    /// `package.json`, parsed.
    pub package_json: Option<Doc>,
    /// `lerna.json`, parsed.
    pub lerna_json: Option<Doc>,
    /// `Cargo.toml`, parsed.
    pub cargo_toml: Option<Doc>,
    /// `go.work` is a file: its text (empty when it does not read).
    pub go_work: Option<String>,
    /// `turbo.json` is a file.
    pub turbo_json: bool,
    /// `nx.json` is a file.
    pub nx_json: bool,
}

/// Member globs of a `package.json`: its `workspaces` array, or the
/// `packages` array of a `workspaces` object.
pub open spec fn npm_workspaces(d: Doc) -> Option<Seq<Seq<char>>> {
    let ws = field(d, "workspaces"@);
    match ws {
        Some(Doc::List(_)) => string_list(ws),
        Some(Doc::Table(_)) => string_list(field_of(ws, "packages"@)),
        _ => None,
    }
}

/// Member globs of a `lerna.json`: its `packages` array.
pub open spec fn lerna_packages(d: Doc) -> Option<Seq<Seq<char>>> {
    string_list(field(d, "packages"@))
}

/// Member globs of a `Cargo.toml` with a `workspace` table: its `members`
/// array, or none listed.
pub open spec fn cargo_members(d: Doc) -> Option<Seq<Seq<char>>> {
    match field(d, "workspace"@) {
        Some(w) => match string_list(field(w, "members"@)) {
            Some(m) => Some(m),
            None => Some(Seq::empty()),
        },
        None => None,
    }
}

/// One line of `go.work` applied to the parser state (inside a `use (`
/// block or not, and the paths so far).
pub open spec fn go_step(st: (bool, Seq<Seq<char>>), line: Seq<char>) -> (bool, Seq<Seq<char>>) {
    let in_block = st.0;
    let pats = st.1;
    let t = trim(line);
    if has_prefix(t, "use "@) {
        let rest = trim(strip_all(t, "use"@));
        if has_prefix(rest, "("@) {
            (true, pats)
        } else if rest.len() > 0 {
            (in_block, pats.push(rest))
        } else {
            (in_block, pats)
        }
    } else if in_block {
        if has_prefix(t, ")"@) {
            (false, pats)
        } else if t.len() == 0 || has_prefix(t, "//"@) {
            (in_block, pats)
        } else {
            (in_block, pats.push(t))
        }
    } else {
        (in_block, pats)
    }
}

pub open spec fn go_fold(lines: Seq<Seq<char>>) -> (bool, Seq<Seq<char>>)
    decreases lines.len(),
{
    if lines.len() == 0 {
        (false, Seq::empty())
    } else {
        go_step(go_fold(lines.drop_last()), lines.last())
    }
}

/// The module paths that a `go.work` text uses, single-line and block
/// form, as written.
pub open spec fn go_work_uses(content: Seq<char>) -> Seq<Seq<char>> {
    go_fold(lines_of(content)).1
}

/// The workspace that the root's manifests declare, first match wins:
/// pnpm, npm, lerna, cargo, go, turbo, nx.
pub open spec fn detected(m: RootManifests) -> Option<(WorkspaceKind, Seq<Seq<char>>)> {
    if m.pnpm_packages is Some {
        Some((WorkspaceKind::Pnpm, texts(m.pnpm_packages->Some_0@)))
    } else if m.package_json is Some && npm_workspaces(m.package_json->Some_0) is Some {
        Some((WorkspaceKind::Npm, npm_workspaces(m.package_json->Some_0)->Some_0))
    } else if m.lerna_json is Some && lerna_packages(m.lerna_json->Some_0) is Some {
        Some((WorkspaceKind::Lerna, lerna_packages(m.lerna_json->Some_0)->Some_0))
    } else if m.cargo_toml is Some && cargo_members(m.cargo_toml->Some_0) is Some {
        Some((WorkspaceKind::Cargo, cargo_members(m.cargo_toml->Some_0)->Some_0))
    } else if m.go_work is Some {
        Some((WorkspaceKind::Go, go_work_uses(m.go_work->Some_0@)))
    } else if m.turbo_json {
        Some((WorkspaceKind::Turbo, Seq::empty()))
    } else if m.nx_json {
        Some((WorkspaceKind::Nx, Seq::empty()))
    } else {
        None
    }
}

pub open spec fn info_view(w: Option<WorkspaceInfo>) -> Option<(WorkspaceKind, Seq<Seq<char>>)> {
    match w {
        Some(i) => Some((i.kind, texts(i.patterns@))),
        None => None,
    }
}

pub open spec fn opt_texts(v: Option<Vec<String>>) -> Option<Seq<Seq<char>>> {
    match v {
        Some(x) => Some(texts(x@)),
        None => None,
    }
}

/// The member globs of a parsed `package.json`.
pub fn parse_package_json_workspaces(value: &Doc) -> (r: Option<Vec<String>>)
    ensures
        opt_texts(r) == npm_workspaces(*value),
{
    let workspaces = get(value, "workspaces");
    match workspaces {
        Some(Doc::List(_)) => as_string_list(workspaces),
        Some(Doc::Table(_)) => as_string_list(get_opt(workspaces, "packages")),
        _ => None,
    }
}

/// The member globs of a parsed `lerna.json`.
pub fn parse_lerna_packages(value: &Doc) -> (r: Option<Vec<String>>)
    ensures
        opt_texts(r) == lerna_packages(*value),
{
    as_string_list(get(value, "packages"))
}

/// The member globs of a parsed `Cargo.toml`.
pub fn parse_cargo_workspace(value: &Doc) -> (r: Option<Vec<String>>)
    ensures
        opt_texts(r) == cargo_members(*value),
{
    let workspace = get(value, "workspace");
    match workspace {
        Some(w) => match as_string_list(get(w, "members")) {
            Some(m) => Some(m),
            None => {
                let none: Vec<String> = Vec::new();
                assert(texts(none@) =~= Seq::<Seq<char>>::empty());
                Some(none)
            },
        },
        None => None,
    }
}

/// The paths that a `go.work` text uses.
pub fn parse_go_work(content: &str) -> (r: Vec<String>)
    ensures
        texts(r@) == go_work_uses(content@),
{
    let lines = split_lines(content);
    let mut patterns: Vec<String> = Vec::new();
    let mut in_block = false;
    let mut i: usize = 0;
    while i < lines.len()
        invariant
            i <= lines.len(),
            texts(lines@) == lines_of(content@),
            (in_block, texts(patterns@)) == go_fold(texts(lines@).take(i as int)),
        decreases lines.len() - i,
    {
        proof {
            assert(texts(lines@).take(i as int + 1).drop_last() =~= texts(lines@).take(i as int));
            assert(texts(lines@).take(i as int + 1).last() == lines@[i as int]@);
        }
        let trimmed = trim_text(lines[i].as_str());
        let ghost prev = patterns@;
        if starts_with(trimmed.as_str(), "use ") {
            let rest = trim_text(strip_all_text(trimmed.as_str(), "use").as_str());
            if starts_with(rest.as_str(), "(") {
                in_block = true;
            } else if !rest.as_str().is_empty() {
                patterns.push(rest);
                assert(texts(patterns@) =~= texts(prev).push(patterns@.last()@));
            }
        } else if in_block {
            if starts_with(trimmed.as_str(), ")") {
                in_block = false;
            } else if !trimmed.as_str().is_empty() && !starts_with(trimmed.as_str(), "//") {
                patterns.push(trimmed);
                assert(texts(patterns@) =~= texts(prev).push(patterns@.last()@));
            }
        }
        i = i + 1;
    }
    assert(texts(lines@).take(lines.len() as int) =~= texts(lines@));
    patterns
}

/// Detects the workspace declared at the scan root; at most one, the first
/// in priority order.
pub fn detect_workspace(root: &RootManifests) -> (r: Option<WorkspaceInfo>)
    ensures
        info_view(r) == detected(*root),
{
    if let Some(packages) = &root.pnpm_packages {
        return Some(WorkspaceInfo { kind: WorkspaceKind::Pnpm, patterns: clone_strings(packages) });
    }
    if let Some(package_json) = &root.package_json {
        if let Some(patterns) = parse_package_json_workspaces(package_json) {
            return Some(WorkspaceInfo { kind: WorkspaceKind::Npm, patterns });
        }
    }
    if let Some(lerna) = &root.lerna_json {
        if let Some(patterns) = parse_lerna_packages(lerna) {
            return Some(WorkspaceInfo { kind: WorkspaceKind::Lerna, patterns });
        }
    }
    if let Some(cargo) = &root.cargo_toml {
        if let Some(patterns) = parse_cargo_workspace(cargo) {
            return Some(WorkspaceInfo { kind: WorkspaceKind::Cargo, patterns });
        }
    }
    if let Some(go_work) = &root.go_work {
        return Some(WorkspaceInfo { kind: WorkspaceKind::Go, patterns: parse_go_work(go_work.as_str()) });
    }
    if root.turbo_json {
        let none: Vec<String> = Vec::new();
        assert(texts(none@) =~= Seq::<Seq<char>>::empty());
        return Some(WorkspaceInfo { kind: WorkspaceKind::Turbo, patterns: none });
    }
    if root.nx_json {
        let none: Vec<String> = Vec::new();
        assert(texts(none@) =~= Seq::<Seq<char>>::empty());
        return Some(WorkspaceInfo { kind: WorkspaceKind::Nx, patterns: none });
    }
    None
}

#[verifier::external_type_specification]
#[verifier::external_body]
pub struct ExGlob(globset::Glob);

#[verifier::external_type_specification]
#[verifier::external_body]
pub struct ExGlobSet(globset::GlobSet);

#[verifier::external_type_specification]
#[verifier::external_body]
pub struct ExGlobSetBuilder(globset::GlobSetBuilder);

/// A name for whether `Glob::new` accepts a pattern.
pub uninterp spec fn glob_accepts(pattern: Seq<char>) -> bool;

/// A name for whether a glob, compiled with default options, matches a
/// path.
pub uninterp spec fn glob_matches(pattern: Seq<char>, path: Seq<char>) -> bool;

/// The pattern text that a `Glob` was built from.
pub uninterp spec fn glob_text(g: globset::Glob) -> Seq<char>;

/// The patterns added to a `GlobSetBuilder`, in order.
pub uninterp spec fn builder_globs(b: globset::GlobSetBuilder) -> Seq<Seq<char>>;

/// The patterns that a `GlobSet` was built from, in order.
pub uninterp spec fn set_globs(s: globset::GlobSet) -> Seq<Seq<char>>;

/// Relies on `globset::Glob::new`: it fails exactly on patterns it does
/// not accept, and a built glob keeps its pattern text (`Glob::glob`).
#[verifier::external_body]
fn new_glob(pattern: &str) -> (r: Result<globset::Glob, globset::Error>)
    ensures
        r is Ok <==> glob_accepts(pattern@),
        r is Ok ==> glob_text(r->Ok_0) == pattern@,
{
    globset::Glob::new(pattern)
}

/// Relies on `globset::GlobSetBuilder::new`: a builder with no pattern.
#[verifier::external_body]
fn new_builder() -> (r: globset::GlobSetBuilder)
    ensures
        builder_globs(r) == Seq::<Seq<char>>::empty(),
{
    globset::GlobSetBuilder::new()
}

/// Relies on `globset::GlobSetBuilder::add`: the glob is appended.
#[verifier::external_body]
fn builder_add(b: &mut globset::GlobSetBuilder, g: globset::Glob)
    ensures
        builder_globs(*final(b)) == builder_globs(*old(b)).push(glob_text(g)),
{
    b.add(g);
}

/// A name for whether `GlobSet::new` compiles a sequence of parsed globs
/// into one set (it fails only when compiling their matchers fails, which
/// depends on the globs alone).
pub uninterp spec fn globs_compile(globs: Seq<Seq<char>>) -> bool;

/// Relies on `globset::GlobSetBuilder::build` (through `GlobSet::new`): a
/// built set holds the builder's globs; it is built exactly when they
/// compile together.
#[verifier::external_body]
fn builder_build(b: &globset::GlobSetBuilder) -> (r: Result<globset::GlobSet, globset::Error>)
    ensures
        r is Ok <==> globs_compile(builder_globs(*b)),
        r is Ok ==> set_globs(r->Ok_0) == builder_globs(*b),
{
    b.build()
}

/// Relies on `globset::GlobSet::is_match`: true when any glob of the set
/// matches the path.
#[verifier::external_body]
fn set_is_match(s: &globset::GlobSet, path: &str) -> (r: bool)
    ensures
        r == (exists|i: int|
            0 <= i < set_globs(*s).len() && glob_matches(#[trigger] set_globs(*s)[i], path@)),
{
    s.is_match(path)
}

/// A member glob as matched: trimmed, without leading `./` and `/`.
pub open spec fn normalized(p: Seq<char>) -> Seq<char> {
    strip_all(strip_all(trim(p), "./"@), "/"@)
}

/// Normalises a member glob before it is compiled.
pub fn normalize_pattern(pattern: &str) -> (r: String)
    ensures
        r@ == normalized(pattern@),
{
    let trimmed = trim_text(pattern);
    let dotless = strip_all_text(trimmed.as_str(), "./");
    strip_all_text(dotless.as_str(), "/")
}

/// Path segments joined with `/`.
pub open spec fn slash_path(p: Seq<Seq<char>>) -> Seq<char>
    decreases p.len(),
{
    if p.len() == 0 {
        Seq::empty()
    } else if p.len() == 1 {
        p[0]
    } else {
        slash_path(p.drop_last()) + "/"@ + p.last()
    }
}

pub fn path_to_slash(path: &Vec<String>) -> (r: String)
    ensures
        r@ == slash_path(texts(path@)),
{
    let mut out = String::new();
    let mut i: usize = 0;
    while i < path.len()
        invariant
            i <= path.len(),
            out@ == slash_path(texts(path@).take(i as int)),
        decreases path.len() - i,
    {
        proof {
            assert(texts(path@).take(i as int + 1).drop_last() =~= texts(path@).take(i as int));
            if i == 0 {
                assert(texts(path@).take(0) =~= Seq::<Seq<char>>::empty());
            }
        }
        if i > 0 {
            out.append("/");
        }
        out.append(path[i].as_str());
        i = i + 1;
    }
    assert(texts(path@).take(i as int) =~= texts(path@));
    out
}

/// Whether some normalised pattern of `pats` matches `path`.
pub open spec fn any_glob_matches(pats: Seq<Seq<char>>, path: Seq<char>) -> bool {
    exists|j: int| 0 <= j < pats.len() && glob_matches(normalized(#[trigger] pats[j]), path)
}

/// The package root that node `n` yields under the patterns: a matching
/// directory itself, the parent of a matching file.
pub open spec fn pattern_root(n: Node, pats: Seq<Seq<char>>) -> Option<Seq<Seq<char>>> {
    let rel = slash_path(texts(n.rel_path@));
    if rel.len() == 0 || !any_glob_matches(pats, rel) {
        None
    } else if n.kind == NodeKind::Dir {
        Some(texts(n.rel_path@))
    } else {
        Some(parent_path(texts(n.rel_path@)))
    }
}

/// The roots as plain values.
pub open spec fn root_views(v: Seq<Vec<String>>) -> Seq<Seq<Seq<char>>> {
    v.map_values(|p: Vec<String>| texts(p@))
}

pub open spec fn no_duplicates(s: Seq<Seq<Seq<char>>>) -> bool {
    forall|i: int, j: int| 0 <= i < j < s.len() ==> s[i] != s[j]
}

/// Index of the first pattern that does not parse once normalised, or the
/// length.
pub open spec fn first_bad(pats: Seq<Seq<char>>, i: int) -> int
    decreases pats.len() - i,
{
    if i < 0 || i >= pats.len() || !glob_accepts(normalized(pats[i])) {
        i
    } else {
        first_bad(pats, i + 1)
    }
}

proof fn lemma_first_bad(pats: Seq<Seq<char>>, i: int)
    requires
        0 <= i <= pats.len(),
    ensures
        i <= first_bad(pats, i) <= pats.len(),
        first_bad(pats, i) < pats.len() ==> !glob_accepts(normalized(pats[first_bad(pats, i)])),
        forall|j: int| i <= j < first_bad(pats, i) ==> glob_accepts(normalized(#[trigger] pats[j])),
    decreases pats.len() - i,
{
    if i < pats.len() && glob_accepts(normalized(pats[i])) {
        lemma_first_bad(pats, i + 1);
    }
}

/// The pattern that a failure reports as invalid.
pub open spec fn invalid_pattern_of<T>(r: Result<T, SmarttreeError>) -> Option<Seq<char>> {
    match r {
        Err(SmarttreeError::InvalidPattern { pattern, .. }) => Some(pattern@),
        _ => None,
    }
}

/// The first pattern that does not parse once normalised, normalised.
pub open spec fn bad_pattern(pats: Seq<Seq<char>>) -> Option<Seq<char>> {
    let bad = first_bad(pats, 0);
    if bad < pats.len() {
        Some(normalized(pats[bad]))
    } else {
        None
    }
}

/// `roots` is, without duplicates, the set of package roots that the
/// patterns select among `nodes`.
pub open spec fn roots_match_patterns(
    nodes: Seq<Node>,
    pats: Seq<Seq<char>>,
    roots: Seq<Vec<String>>,
) -> bool {
    &&& no_duplicates(root_views(roots))
    &&& forall|p: Seq<Seq<char>>|
        root_views(roots).contains(p) <==> exists|i: int|
            0 <= i < nodes.len() && #[trigger] pattern_root(nodes[i], pats) == Some(p)
}

/// The normalised patterns, in order.
pub open spec fn normalized_all(pats: Seq<Seq<char>>) -> Seq<Seq<char>> {
    pats.map_values(|p: Seq<char>| normalized(p))
}

/// Every pattern parses once normalised, and together they compile.
pub open spec fn patterns_compile(pats: Seq<Seq<char>>) -> bool {
    bad_pattern(pats) is None && globs_compile(normalized_all(pats))
}

/// Whether a failure is the glob set not compiling.
pub open spec fn is_pattern_set_error<T>(r: Result<T, SmarttreeError>) -> bool {
    match r {
        Err(SmarttreeError::PatternSet { .. }) => true,
        _ => false,
    }
}

/// Appends `p` unless an equal path is already present.
fn push_unique(roots: &mut Vec<Vec<String>>, p: Vec<String>)
    requires
        no_duplicates(root_views(old(roots)@)),
    ensures
        no_duplicates(root_views(final(roots)@)),
        root_views(final(roots)@) == if root_views(old(roots)@).contains(texts(p@)) {
            root_views(old(roots)@)
        } else {
            root_views(old(roots)@).push(texts(p@))
        },
{
    let mut i: usize = 0;
    while i < roots.len()
        invariant
            i <= roots.len(),
            roots@ == old(roots)@,
            no_duplicates(root_views(roots@)),
            forall|q: int| 0 <= q < i ==> root_views(roots@)[q] != texts(p@),
        decreases roots.len() - i,
    {
        if same_path(&roots[i], &p) {
            assert(root_views(roots@)[i as int] == texts(p@));
            return;
        }
        i = i + 1;
    }
    let ghost before = root_views(roots@);
    roots.push(p);
    assert(root_views(roots@) =~= before.push(texts(roots@.last()@)));
}

/// Compiles the normalised patterns into one set; fails on the first that
/// does not parse, or when the set does not compile.
fn build_globset(patterns: &Vec<String>) -> (r: Result<globset::GlobSet, SmarttreeError>)
    ensures
        invalid_pattern_of(r) == bad_pattern(texts(patterns@)),
        r is Ok <==> patterns_compile(texts(patterns@)),
        r is Err ==> invalid_pattern_of(r) is Some || is_pattern_set_error(r),
        r is Ok ==> set_globs(r->Ok_0) == texts(patterns@).map_values(|p: Seq<char>| normalized(p)),
{
    let ghost pats = texts(patterns@);
    let mut builder = new_builder();
    let mut k: usize = 0;
    proof {
        lemma_first_bad(pats, 0);
    }
    while k < patterns.len()
        invariant
            pats == texts(patterns@),
            k <= patterns.len(),
            forall|j: int| 0 <= j < k ==> glob_accepts(normalized(#[trigger] pats[j])),
            builder_globs(builder) == pats.take(k as int).map_values(|p: Seq<char>| normalized(p)),
        decreases patterns.len() - k,
    {
        let normalized_text = normalize_pattern(patterns[k].as_str());
        match new_glob(normalized_text.as_str()) {
            Ok(glob) => {
                builder_add(&mut builder, glob);
                assert(builder_globs(builder) =~= pats.take(k + 1).map_values(|p: Seq<char>| normalized(p)));
            },
            Err(source) => {
                proof {
                    assert(pats[k as int] == patterns@[k as int]@);
                    lemma_first_bad(pats, 0);
                    if first_bad(pats, 0) < k {
                        assert(glob_accepts(normalized(pats[first_bad(pats, 0)])));
                    }
                    if first_bad(pats, 0) > k {
                        assert(glob_accepts(normalized(pats[k as int])));
                    }
                }
                return Err(SmarttreeError::InvalidPattern { pattern: normalized_text, source });
            },
        }
        k = k + 1;
    }
    proof {
        lemma_first_bad(pats, 0);
        if first_bad(pats, 0) < pats.len() {
            assert(glob_accepts(normalized(pats[first_bad(pats, 0)])));
        }
    }
    assert(pats.take(k as int) =~= pats);
    match builder_build(&builder) {
        Ok(set) => Ok(set),
        Err(source) => Err(SmarttreeError::PatternSet { source }),
    }
}

/// The package roots that the member patterns select among `tree`'s nodes,
/// as a set without duplicates. Fails on the first pattern that does not
/// parse once normalised.
fn roots_from_patterns(tree: &Tree, patterns: &Vec<String>) -> (r: Result<Vec<Vec<String>>, SmarttreeError>)
    ensures
        invalid_pattern_of(r) == bad_pattern(texts(patterns@)),
        r is Ok <==> patterns_compile(texts(patterns@)),
        r is Err ==> invalid_pattern_of(r) is Some || is_pattern_set_error(r),
        r is Ok ==> roots_match_patterns(tree.nodes@, texts(patterns@), r->Ok_0@),
{
    let ghost pats = texts(patterns@);
    let set = match build_globset(patterns) {
        Ok(set) => set,
        Err(e) => {
            return Err(e);
        },
    };
    let ghost globs = set_globs(set);
    let mut roots: Vec<Vec<String>> = Vec::new();
    let mut i: usize = 0;
    while i < tree.nodes.len()
        invariant
            pats == texts(patterns@),
            globs == set_globs(set),
            globs == pats.map_values(|p: Seq<char>| normalized(p)),
            i <= tree.nodes.len(),
            no_duplicates(root_views(roots@)),
            forall|p: Seq<Seq<char>>|
                root_views(roots@).contains(p) <==> exists|q: int|
                    0 <= q < i && #[trigger] pattern_root(tree.nodes@[q], pats) == Some(p),
        decreases tree.nodes.len() - i,
    {
        let node = &tree.nodes[i];
        let rel = path_to_slash(&node.rel_path);
        let ghost before = root_views(roots@);
        let mut hit = false;
        if !rel.as_str().is_empty() {
            hit = set_is_match(&set, rel.as_str());
            proof {
                if hit {
                    let j = choose|j: int| 0 <= j < globs.len() && glob_matches(#[trigger] globs[j], rel@);
                    assert(glob_matches(normalized(pats[j]), rel@));
                } else {
                    assert forall|j: int| 0 <= j < pats.len() implies !glob_matches(
                        normalized(#[trigger] pats[j]),
                        rel@,
                    ) by {
                        assert(globs[j] == normalized(pats[j]));
                    }
                }
            }
            if hit {
                if node.kind == NodeKind::Dir {
                    push_unique(&mut roots, clone_strings(&node.rel_path));
                } else {
                    let mut parent: Vec<String> = Vec::new();
                    let mut s: usize = 0;
                    while s + 1 < node.rel_path.len()
                        invariant
                            s <= node.rel_path.len(),
                            node.rel_path.len() == 0 || s < node.rel_path.len(),
                            texts(parent@) == texts(node.rel_path@).take(s as int),
                        decreases node.rel_path.len() - s,
                    {
                        let ghost pp = parent@;
                        parent.push(node.rel_path[s].clone());
                        assert(texts(parent@) =~= texts(pp).push(node.rel_path@[s as int]@));
                        assert(texts(node.rel_path@).take(s + 1) =~= texts(node.rel_path@).take(
                            s as int,
                        ).push(node.rel_path@[s as int]@));
                        s = s + 1;
                    }
                    assert(texts(parent@) =~= parent_path(texts(node.rel_path@)));
                    push_unique(&mut roots, parent);
                }
            }
        }
        proof {
            assert forall|p: Seq<Seq<char>>|
                root_views(roots@).contains(p) <==> exists|q: int|
                    0 <= q < i + 1 && #[trigger] pattern_root(tree.nodes@[q], pats) == Some(p) by {
                if root_views(roots@).contains(p) && !before.contains(p) {
                    assert(pattern_root(tree.nodes@[i as int], pats) == Some(p));
                }
                if exists|q: int| 0 <= q < i + 1 && #[trigger] pattern_root(tree.nodes@[q], pats) == Some(p) {
                    let q = choose|q: int| 0 <= q < i + 1 && #[trigger] pattern_root(tree.nodes@[q], pats) == Some(p);
                    if q == i {
                        if before.contains(p) {
                            let w = choose|w: int| 0 <= w < before.len() && before[w] == p;
                            assert(root_views(roots@)[w] == p);
                        } else {
                            assert(root_views(roots@) == before.push(p));
                            assert(root_views(roots@)[before.len() as int] == p);
                        }
                    } else {
                        assert(before.contains(p));
                        let w = choose|w: int| 0 <= w < before.len() && before[w] == p;
                        assert(root_views(roots@)[w] == p);
                    }
                }
            }
        }
        i = i + 1;
    }
    Ok(roots)
}

/// The grouping directories of the naming-convention fallback.
pub open spec fn is_group_dir(s: Seq<char>) -> bool {
    s == "packages"@ || s == "apps"@ || s == "services"@ || s == "libs"@
}

/// The package root that the fallback takes from a candidate: its
/// second-level directory under a grouping directory.
pub open spec fn heuristic_root(nodes: Seq<Node>, c: ModuleCandidate) -> Option<Seq<Seq<char>>> {
    let p = texts(nodes[c.node_id as int].rel_path@);
    if p.len() >= 2 && is_group_dir(p[0]) {
        Some(p.take(2))
    } else {
        None
    }
}

/// `roots` is, without duplicates, the set of fallback package roots.
pub open spec fn roots_match_heuristic(
    nodes: Seq<Node>,
    cands: Seq<ModuleCandidate>,
    roots: Seq<Vec<String>>,
) -> bool {
    &&& no_duplicates(root_views(roots))
    &&& forall|p: Seq<Seq<char>>|
        root_views(roots).contains(p) <==> exists|j: int|
            0 <= j < cands.len() && #[trigger] heuristic_root(nodes, cands[j]) == Some(p)
}

fn is_group_name(s: &String) -> (r: bool)
    ensures
        r == is_group_dir(s@),
{
    let t = s.as_str();
    same_text(t, "packages") || same_text(t, "apps") || same_text(t, "services") || same_text(
        t,
        "libs",
    )
}

/// Package roots by naming convention: the second-level directory of every
/// candidate under `packages`, `apps`, `services` or `libs`.
pub fn heuristic_package_roots(tree: &Tree, candidates: &Vec<ModuleCandidate>) -> (r: Vec<Vec<String>>)
    requires
        forall|j: int| 0 <= j < candidates.len() ==> #[trigger] candidates@[j].node_id < tree.nodes.len(),
    ensures
        roots_match_heuristic(tree.nodes@, candidates@, r@),
{
    let mut roots: Vec<Vec<String>> = Vec::new();
    let mut j: usize = 0;
    while j < candidates.len()
        invariant
            forall|q: int| 0 <= q < candidates.len() ==> #[trigger] candidates@[q].node_id < tree.nodes.len(),
            j <= candidates.len(),
            no_duplicates(root_views(roots@)),
            forall|p: Seq<Seq<char>>|
                root_views(roots@).contains(p) <==> exists|q: int|
                    0 <= q < j && #[trigger] heuristic_root(tree.nodes@, candidates@[q]) == Some(p),
        decreases candidates.len() - j,
    {
        let rel = &tree.nodes[candidates[j].node_id].rel_path;
        let ghost before = root_views(roots@);
        let ghost h = heuristic_root(tree.nodes@, candidates@[j as int]);
        if rel.len() >= 2 && is_group_name(&rel[0]) {
            let mut root: Vec<String> = Vec::new();
            root.push(rel[0].clone());
            root.push(rel[1].clone());
            assert(texts(root@) =~= texts(rel@).take(2));
            push_unique(&mut roots, root);
        }
        proof {
            assert forall|p: Seq<Seq<char>>|
                root_views(roots@).contains(p) <==> exists|q: int|
                    0 <= q < j + 1 && #[trigger] heuristic_root(tree.nodes@, candidates@[q]) == Some(p) by {
                if root_views(roots@).contains(p) && !before.contains(p) {
                    assert(h == Some(p));
                }
                if exists|q: int|
                    0 <= q < j + 1 && #[trigger] heuristic_root(tree.nodes@, candidates@[q]) == Some(p) {
                    let q = choose|q: int|
                        0 <= q < j + 1 && #[trigger] heuristic_root(tree.nodes@, candidates@[q]) == Some(p);
                    if q == j {
                        if before.contains(p) {
                            let w = choose|w: int| 0 <= w < before.len() && before[w] == p;
                            assert(root_views(roots@)[w] == p);
                        } else {
                            assert(root_views(roots@)[before.len() as int] == p);
                        }
                    } else {
                        assert(before.contains(p));
                        let w = choose|w: int| 0 <= w < before.len() && before[w] == p;
                        assert(root_views(roots@)[w] == p);
                    }
                }
            }
        }
        j = j + 1;
    }
    roots
}

/// Resolves member globs to package roots. With patterns, the roots they
/// select; when there are none or they select nothing, the
/// naming-convention fallback. A pattern that does not parse is an error.
pub fn resolve_package_roots(
    tree: &Tree,
    info: &WorkspaceInfo,
    candidates: &Vec<ModuleCandidate>,
) -> (r: Result<Vec<Vec<String>>, SmarttreeError>)
    requires
        forall|j: int| 0 <= j < candidates.len() ==> #[trigger] candidates@[j].node_id < tree.nodes.len(),
    ensures
        ({
            let pats = texts(info.patterns@);
            let selects = exists|i: int|
                0 <= i < tree.nodes.len() && #[trigger] pattern_root(tree.nodes@[i], pats) is Some;
            &&& pats.len() == 0 ==> r is Ok
            &&& pats.len() > 0 ==> (r is Ok <==> patterns_compile(pats))
            &&& is_pattern_set_error(r) <==> (pats.len() > 0 && bad_pattern(pats) is None
                && !globs_compile(normalized_all(pats)))
            &&& invalid_pattern_of(r) == if pats.len() == 0 {
                None
            } else {
                bad_pattern(pats)
            }
            &&& r is Ok ==> if pats.len() > 0 && selects {
                roots_match_patterns(tree.nodes@, pats, r->Ok_0@)
            } else {
                roots_match_heuristic(tree.nodes@, candidates@, r->Ok_0@)
            }
        }),
{
    let ghost pats = texts(info.patterns@);
    if info.patterns.len() > 0 {
        let roots = roots_from_patterns(tree, &info.patterns);
        match roots {
            Ok(roots) => {
                if roots.len() > 0 {
                    proof {
                        assert(root_views(roots@).contains(root_views(roots@)[0]));
                        let i = choose|i: int|
                            0 <= i < tree.nodes.len() && #[trigger] pattern_root(tree.nodes@[i], pats)
                                == Some(root_views(roots@)[0]);
                    }
                    return Ok(roots);
                }
                proof {
                    assert forall|i: int| 0 <= i < tree.nodes.len() implies !(#[trigger] pattern_root(
                        tree.nodes@[i],
                        pats,
                    ) is Some) by {
                        if pattern_root(tree.nodes@[i], pats) is Some {
                            let p = pattern_root(tree.nodes@[i], pats)->Some_0;
                            assert(root_views(roots@).contains(p));
                        }
                    }
                }
            },
            Err(e) => {
                return Err(e);
            },
        }
    }
    Ok(heuristic_package_roots(tree, candidates))
}

} // verus!
