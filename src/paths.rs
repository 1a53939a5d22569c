//! Relative paths as sequences of segments below the scan root.

use vstd::prelude::*;

use crate::charseq::texts;

verus! {

/// Whether the segment path `p` is a prefix of (or equal to) `q`.
pub open spec fn seg_prefix(p: Seq<Seq<char>>, q: Seq<Seq<char>>) -> bool {
    p.len() <= q.len() && q.take(p.len() as int) == p
}

/// The path of the parent directory: all segments but the last.
pub open spec fn parent_path(p: Seq<Seq<char>>) -> Seq<Seq<char>> {
    if p.len() == 0 {
        p
    } else {
        p.drop_last()
    }
}

/// Whether `p` is a prefix of (or equal to) `q`, segment by segment.
pub fn is_seg_prefix(p: &Vec<String>, q: &Vec<String>) -> (r: bool)
    ensures
        r == seg_prefix(texts(p@), texts(q@)),
{
    if p.len() > q.len() {
        return false;
    }
    let mut i: usize = 0;
    while i < p.len()
        invariant
            p.len() <= q.len(),
            i <= p.len(),
            texts(q@).take(i as int) == texts(p@).take(i as int),
        decreases p.len() - i,
    {
        if p[i] != q[i] {
            assert(texts(q@).take(p.len() as int)[i as int] != texts(p@)[i as int]);
            return false;
        }
        proof {
            assert(texts(q@).take(i as int + 1) =~= texts(q@).take(i as int).push(q@[i as int]@));
            assert(texts(p@).take(i as int + 1) =~= texts(p@).take(i as int).push(p@[i as int]@));
        }
        i = i + 1;
    }
    assert(texts(p@).take(i as int) =~= texts(p@));
    true
}

/// Whether two segment paths are equal.
pub fn same_path(a: &Vec<String>, b: &Vec<String>) -> (r: bool)
    ensures
        r == (texts(a@) == texts(b@)),
{
    if a.len() != b.len() {
        assert(texts(a@).len() != texts(b@).len());
        return false;
    }
    proof {
        assert(texts(b@).take(texts(a@).len() as int) =~= texts(b@));
    }
    is_seg_prefix(a, b)
}

} // verus!
