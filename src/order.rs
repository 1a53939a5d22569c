//! Sibling order: directories first, then case-insensitive name, then exact
//! name. Children are sorted by insertion, which keeps equal keys in the
//! order they came in.

use vstd::prelude::*;
use vstd::string::*;

use crate::charseq::{lex_less, lex_lt, lower_of, lowercase, to_chars};
use crate::model::{Node, NodeKind};

verus! {

pub open spec fn kind_rank_spec(k: NodeKind) -> u8 {
    match k {
        NodeKind::Dir => 0,
        _ => 1,
    }
}

/// Directories rank before files and error entries.
pub fn kind_rank(kind: NodeKind) -> (r: u8)
    ensures
        r == kind_rank_spec(kind),
{
    match kind {
        NodeKind::Dir => 0,
        NodeKind::File | NodeKind::Error => 1,
    }
}

/// Whether sibling `a` is rendered strictly before sibling `b`.
pub open spec fn node_before(a: Node, b: Node) -> bool {
    let ra = kind_rank_spec(a.kind);
    let rb = kind_rank_spec(b.kind);
    let la = lower_of(a.name@);
    let lb = lower_of(b.name@);
    ra < rb || (ra == rb && (lex_lt(la, lb) || (la == lb && lex_lt(a.name@, b.name@))))
}

/// `x` inserted into `s` before the first element that it precedes.
pub open spec fn insert_sorted(nodes: Seq<Node>, x: usize, s: Seq<usize>) -> Seq<usize>
    decreases s.len(),
{
    if s.len() == 0 {
        seq![x]
    } else if node_before(nodes[x as int], nodes[s[0] as int]) {
        seq![x] + s
    } else {
        seq![s[0]] + insert_sorted(nodes, x, s.drop_first())
    }
}

/// The stable insertion sort of `s` by `node_before`.
pub open spec fn sort_ids(nodes: Seq<Node>, s: Seq<usize>) -> Seq<usize>
    decreases s.len(),
{
    if s.len() == 0 {
        s
    } else {
        insert_sorted(nodes, s.last(), sort_ids(nodes, s.drop_last()))
    }
}

/// No later element precedes an earlier one.
pub open spec fn is_sorted(nodes: Seq<Node>, s: Seq<usize>) -> bool {
    forall|i: int, j: int|
        0 <= i < j < s.len() ==> !node_before(#[trigger] nodes[s[j] as int], #[trigger] nodes[s[i] as int])
}

pub proof fn lemma_lex_irreflexive(a: Seq<char>)
    ensures
        !lex_lt(a, a),
    decreases a.len(),
{
    if a.len() > 0 {
        lemma_lex_irreflexive(a.drop_first());
    }
}

pub proof fn lemma_lex_trichotomy(a: Seq<char>, b: Seq<char>)
    ensures
        a == b || lex_lt(a, b) || lex_lt(b, a),
    decreases a.len(),
{
    if a.len() > 0 && b.len() > 0 && a[0] == b[0] {
        lemma_lex_trichotomy(a.drop_first(), b.drop_first());
        if a.drop_first() == b.drop_first() {
            assert(a =~= seq![a[0]] + a.drop_first());
            assert(b =~= seq![b[0]] + b.drop_first());
        }
    } else if a.len() == 0 && b.len() == 0 {
        assert(a =~= b);
    } else if a.len() > 0 && b.len() > 0 {
        assert((a[0] as int) != (b[0] as int));
    }
}

pub proof fn lemma_lex_transitive(a: Seq<char>, b: Seq<char>, c: Seq<char>)
    requires
        lex_lt(a, b),
        lex_lt(b, c),
    ensures
        lex_lt(a, c),
    decreases a.len(),
{
    if a.len() > 0 && b.len() > 0 && c.len() > 0 && a[0] == b[0] && b[0] == c[0] {
        lemma_lex_transitive(a.drop_first(), b.drop_first(), c.drop_first());
    } else if a.len() > 0 && b.len() > 0 && c.len() > 0 {
        assert((a[0] as int) <= (b[0] as int));
        assert((b[0] as int) <= (c[0] as int));
        if a[0] == c[0] {
            assert((a[0] as int) == (c[0] as int));
            assert(a[0] == b[0]);
        }
    }
}

pub proof fn lemma_before_irreflexive(a: Node)
    ensures
        !node_before(a, a),
{
    lemma_lex_irreflexive(lower_of(a.name@));
    lemma_lex_irreflexive(a.name@);
}

pub proof fn lemma_before_transitive(a: Node, b: Node, c: Node)
    requires
        node_before(a, b),
        node_before(b, c),
    ensures
        node_before(a, c),
{
    let (la, lb, lc) = (lower_of(a.name@), lower_of(b.name@), lower_of(c.name@));
    if lex_lt(la, lb) && lex_lt(lb, lc) {
        lemma_lex_transitive(la, lb, lc);
    }
    if lex_lt(a.name@, b.name@) && lex_lt(b.name@, c.name@) {
        lemma_lex_transitive(a.name@, b.name@, c.name@);
    }
}

/// Neither precedes the other: equal rank and equal names.
pub proof fn lemma_before_incomparable(a: Node, b: Node)
    requires
        !node_before(a, b),
        !node_before(b, a),
    ensures
        kind_rank_spec(a.kind) == kind_rank_spec(b.kind),
        a.name@ == b.name@,
{
    lemma_lex_trichotomy(lower_of(a.name@), lower_of(b.name@));
    lemma_lex_trichotomy(a.name@, b.name@);
}

pub proof fn lemma_insert_sorted_at(nodes: Seq<Node>, x: usize, s: Seq<usize>, p: int)
    requires
        0 <= p <= s.len(),
        forall|q: int| 0 <= q < p ==> !node_before(nodes[x as int], #[trigger] nodes[s[q] as int]),
        p == s.len() || node_before(nodes[x as int], nodes[s[p] as int]),
    ensures
        insert_sorted(nodes, x, s) == s.insert(p, x),
    decreases s.len(),
{
    if s.len() == 0 {
        assert(s.insert(p, x) =~= seq![x]);
    } else if p == 0 {
        assert(s.insert(p, x) =~= seq![x] + s);
    } else {
        let rest = s.drop_first();
        assert forall|q: int| 0 <= q < p - 1 implies !node_before(
            nodes[x as int],
            #[trigger] nodes[rest[q] as int],
        ) by {
            assert(rest[q] == s[q + 1]);
        }
        lemma_insert_sorted_at(nodes, x, rest, p - 1);
        assert(s.insert(p, x) =~= seq![s[0]] + rest.insert(p - 1, x));
    }
}

pub proof fn lemma_insert_sorted_multiset(nodes: Seq<Node>, x: usize, s: Seq<usize>)
    ensures
        insert_sorted(nodes, x, s).to_multiset() == s.to_multiset().insert(x),
    decreases s.len(),
{
    broadcast use vstd::seq_lib::group_to_multiset_ensures, vstd::seq_lib::lemma_multiset_commutative;

    if s.len() == 0 {
        assert(seq![x] =~= Seq::<usize>::empty().push(x));
    } else if node_before(nodes[x as int], nodes[s[0] as int]) {
        assert(s.to_multiset().insert(x) =~= (seq![x] + s).to_multiset());
    } else {
        lemma_insert_sorted_multiset(nodes, x, s.drop_first());
        assert(s =~= seq![s[0]] + s.drop_first());
        assert(insert_sorted(nodes, x, s).to_multiset() =~= s.to_multiset().insert(x));
    }
}

pub proof fn lemma_sort_multiset(nodes: Seq<Node>, s: Seq<usize>)
    ensures
        sort_ids(nodes, s).to_multiset() == s.to_multiset(),
    decreases s.len(),
{
    broadcast use vstd::seq_lib::group_to_multiset_ensures;

    if s.len() > 0 {
        lemma_sort_multiset(nodes, s.drop_last());
        lemma_insert_sorted_multiset(nodes, s.last(), sort_ids(nodes, s.drop_last()));
        assert(s =~= s.drop_last().push(s.last()));
    }
}

proof fn lemma_insert_sorted_sorted(nodes: Seq<Node>, x: usize, s: Seq<usize>)
    requires
        is_sorted(nodes, s),
    ensures
        is_sorted(nodes, insert_sorted(nodes, x, s)),
    decreases s.len(),
{
    broadcast use vstd::seq_lib::group_to_multiset_ensures;

    let r = insert_sorted(nodes, x, s);
    if s.len() == 0 {
    } else if node_before(nodes[x as int], nodes[s[0] as int]) {
        assert forall|i: int, j: int| 0 <= i < j < r.len() implies !node_before(
            #[trigger] nodes[r[j] as int],
            #[trigger] nodes[r[i] as int],
        ) by {
            if i == 0 {
                if node_before(nodes[r[j] as int], nodes[x as int]) {
                    if j > 1 {
                        assert(!node_before(nodes[s[j - 1] as int], nodes[s[0] as int]));
                    }
                    lemma_before_transitive(nodes[r[j] as int], nodes[x as int], nodes[s[0] as int]);
                    lemma_before_irreflexive(nodes[s[0] as int]);
                }
            } else {
                assert(r[i] == s[i - 1] && r[j] == s[j - 1]);
            }
        }
    } else {
        let rest = s.drop_first();
        let tail = insert_sorted(nodes, x, rest);
        assert(is_sorted(nodes, rest)) by {
            assert forall|i: int, j: int| 0 <= i < j < rest.len() implies !node_before(
                #[trigger] nodes[rest[j] as int],
                #[trigger] nodes[rest[i] as int],
            ) by {
                assert(rest[i] == s[i + 1] && rest[j] == s[j + 1]);
            }
        }
        lemma_insert_sorted_sorted(nodes, x, rest);
        lemma_insert_sorted_multiset(nodes, x, rest);
        assert forall|i: int, j: int| 0 <= i < j < r.len() implies !node_before(
            #[trigger] nodes[r[j] as int],
            #[trigger] nodes[r[i] as int],
        ) by {
            if i == 0 {
                let y = r[j];
                assert(y == tail[j - 1]);
                assert(tail.to_multiset().contains(y));
                assert(rest.to_multiset().insert(x).contains(y));
                if y != x {
                    assert(rest.to_multiset().contains(y));
                    assert(rest.contains(y));
                    let k = choose|k: int| 0 <= k < rest.len() && rest[k] == y;
                    assert(s[k + 1] == y);
                }
            } else {
                assert(r[i] == tail[i - 1] && r[j] == tail[j - 1]);
            }
        }
    }
}

/// The sort yields an ordered sequence.
pub proof fn lemma_sort_sorted(nodes: Seq<Node>, s: Seq<usize>)
    ensures
        is_sorted(nodes, sort_ids(nodes, s)),
    decreases s.len(),
{
    if s.len() > 0 {
        lemma_sort_sorted(nodes, s.drop_last());
        lemma_insert_sorted_sorted(nodes, s.last(), sort_ids(nodes, s.drop_last()));
    }
}

/// The precomputed sort key of one node.
struct SortKey {
    id: usize,
    rank: u8,
    lower: Vec<char>,
    name: Vec<char>,
}

spec fn key_of(nodes: Seq<Node>, k: SortKey) -> bool {
    &&& 0 <= k.id < nodes.len()
    &&& k.rank == kind_rank_spec(nodes[k.id as int].kind)
    &&& k.lower@ == lower_of(nodes[k.id as int].name@)
    &&& k.name@ == nodes[k.id as int].name@
}

spec fn key_ids(v: Seq<SortKey>) -> Seq<usize> {
    v.map_values(|k: SortKey| k.id)
}

fn make_key(nodes: &Vec<Node>, id: usize) -> (k: SortKey)
    requires
        id < nodes.len(),
    ensures
        key_of(nodes@, k),
        k.id == id,
{
    let name = nodes[id].name.as_str();
    let lower = lowercase(name);
    SortKey { id, rank: kind_rank(nodes[id].kind), lower: to_chars(lower.as_str()), name: to_chars(name) }
}

fn key_before(nodes: &Vec<Node>, a: &SortKey, b: &SortKey) -> (r: bool)
    requires
        key_of(nodes@, *a),
        key_of(nodes@, *b),
    ensures
        r == node_before(nodes@[a.id as int], nodes@[b.id as int]),
{
    if a.rank != b.rank {
        a.rank < b.rank
    } else if lex_less(&a.lower, &b.lower) {
        true
    } else if lex_less(&b.lower, &a.lower) {
        proof {
            lemma_lex_irreflexive(a.lower@);
        }
        false
    } else {
        proof {
            lemma_lex_trichotomy(a.lower@, b.lower@);
        }
        lex_less(&a.name, &b.name)
    }
}

/// Sorts sibling indices into rendering order.
pub fn sort_children(nodes: &Vec<Node>, ids: Vec<usize>) -> (r: Vec<usize>)
    requires
        forall|i: int| 0 <= i < ids.len() ==> ids@[i] < nodes.len(),
    ensures
        r@ == sort_ids(nodes@, ids@),
{
    let mut out: Vec<SortKey> = Vec::new();
    let mut i: usize = 0;
    while i < ids.len()
        invariant
            i <= ids.len(),
            forall|q: int| 0 <= q < ids.len() ==> ids@[q] < nodes.len(),
            forall|q: int| 0 <= q < out.len() ==> key_of(nodes@, #[trigger] out@[q]),
            key_ids(out@) == sort_ids(nodes@, ids@.take(i as int)),
        decreases ids.len() - i,
    {
        let key = make_key(nodes, ids[i]);
        let mut p: usize = 0;
        while p < out.len() && !key_before(nodes, &key, &out[p])
            invariant
                p <= out.len(),
                key_of(nodes@, key),
                forall|q: int| 0 <= q < out.len() ==> key_of(nodes@, #[trigger] out@[q]),
                forall|q: int|
                    0 <= q < p ==> !node_before(
                        nodes@[key.id as int],
                        #[trigger] nodes@[key_ids(out@)[q] as int],
                    ),
            decreases out.len() - p,
        {
            p = p + 1;
        }
        let ghost before = out@;
        proof {
            let s = key_ids(before);
            assert(s.len() == before.len());
            assert(p < before.len() ==> s[p as int] == before[p as int].id);
            lemma_insert_sorted_at(nodes@, key.id, s, p as int);
            assert(ids@.take(i as int + 1).drop_last() =~= ids@.take(i as int));
            assert(ids@.take(i as int + 1).last() == ids@[i as int]);
        }
        out.insert(p, key);
        proof {
            assert(key_ids(out@) =~= key_ids(before).insert(p as int, ids@[i as int]));
        }
        i = i + 1;
    }
    let mut r: Vec<usize> = Vec::new();
    let mut j: usize = 0;
    while j < out.len()
        invariant
            j <= out.len(),
            r@ == key_ids(out@).take(j as int),
        decreases out.len() - j,
    {
        r.push(out[j].id);
        proof {
            assert(r@ =~= key_ids(out@).take(j as int + 1));
        }
        j = j + 1;
    }
    proof {
        assert(r@ =~= key_ids(out@));
        assert(ids@.take(ids.len() as int) =~= ids@);
    }
    r
}

} // verus!
