//! Tree search: depth-first, pre-order, first match wins. A box matches
//! when its 4-byte tag equals the searched pattern exactly; a container's
//! children are visited after the container itself, in sibling order.

use vstd::prelude::*;

use crate::types::{Mp4Box, spec_tag_of, tag_of};
use crate::wire::spec_u32_of;

verus! {

/// The first pre-order match inside one box: the box itself when its tag
/// matches, else the first match among its children.
pub open spec fn spec_find_box(b: Mp4Box, tag: u32) -> Option<Mp4Box>
    decreases b, 0int,
{
    if spec_tag_of(b) == tag {
        Some(b)
    } else {
        match b {
            Mp4Box::Moof(c) => spec_find_forest(c.data@, tag),
            Mp4Box::Traf(c) => spec_find_forest(c.data@, tag),
            Mp4Box::Moov(c) => spec_find_forest(c.data@, tag),
            Mp4Box::Trak(c) => spec_find_forest(c.data@, tag),
            Mp4Box::Mdia(c) => spec_find_forest(c.data@, tag),
            Mp4Box::Minf(c) => spec_find_forest(c.data@, tag),
            Mp4Box::Dinf(c) => spec_find_forest(c.data@, tag),
            Mp4Box::Stbl(c) => spec_find_forest(c.data@, tag),
            Mp4Box::Mvex(c) => spec_find_forest(c.data@, tag),
            _ => None,
        }
    }
}

/// The first pre-order match in a forest: each subtree in sibling order.
pub open spec fn spec_find_forest(s: Seq<Mp4Box>, tag: u32) -> Option<Mp4Box>
    decreases s, 1int,
{
    if s.len() == 0 {
        None
    } else {
        match spec_find_box(s[0], tag) {
            Some(r) => Some(r),
            None => spec_find_forest(s.drop_first(), tag),
        }
    }
}

/// Skipping subtrees without a match does not change the search result.
pub proof fn lemma_find_forest_skip(s: Seq<Mp4Box>, tag: u32, k: int)
    requires
        0 <= k <= s.len(),
        forall|m: int| 0 <= m < k ==> spec_find_box(#[trigger] s[m], tag) is None,
    ensures
        spec_find_forest(s, tag) == spec_find_forest(s.skip(k), tag),
    decreases k,
{
    if k > 0 {
        assert(s.skip(0) =~= s);
        assert(s.skip(k - 1).len() > 0);
        assert(s.skip(k - 1)[0] == s[k - 1]);
        assert(s.skip(k - 1).drop_first() =~= s.skip(k));
        lemma_find_forest_skip(s, tag, k - 1);
    } else {
        assert(s.skip(0) =~= s);
    }
}

pub fn is_box_type(b: &Mp4Box, tag: u32) -> (r: bool)
    ensures
        r == (spec_tag_of(*b) == tag),
{
    tag_of(b) == tag
}

/// First pre-order match inside one subtree.
pub fn find_in_box<'a>(b: &'a Mp4Box, tag: u32) -> (r: Option<&'a Mp4Box>)
    ensures
        match spec_find_box(*b, tag) {
            None => r is None,
            Some(v) => r is Some && *r.unwrap() == v,
        },
    decreases b, 0int,
{
    if is_box_type(b, tag) {
        return Some(b);
    }
    match b {
        Mp4Box::Moof(c) => find_in_forest(c.data.as_slice(), tag),
        Mp4Box::Traf(c) => find_in_forest(c.data.as_slice(), tag),
        Mp4Box::Moov(c) => find_in_forest(c.data.as_slice(), tag),
        Mp4Box::Trak(c) => find_in_forest(c.data.as_slice(), tag),
        Mp4Box::Mdia(c) => find_in_forest(c.data.as_slice(), tag),
        Mp4Box::Minf(c) => find_in_forest(c.data.as_slice(), tag),
        Mp4Box::Dinf(c) => find_in_forest(c.data.as_slice(), tag),
        Mp4Box::Stbl(c) => find_in_forest(c.data.as_slice(), tag),
        Mp4Box::Mvex(c) => find_in_forest(c.data.as_slice(), tag),
        _ => None,
    }
}

/// First pre-order match in a forest, subtree by subtree.
pub fn find_in_forest<'a>(boxes: &'a [Mp4Box], tag: u32) -> (r: Option<&'a Mp4Box>)
    ensures
        match spec_find_forest(boxes@, tag) {
            None => r is None,
            Some(v) => r is Some && *r.unwrap() == v,
        },
    decreases boxes@, 1int,
{
    let n = boxes.len();
    let mut k: usize = 0;
    while k < n
        invariant
            k <= n,
            n == boxes@.len(),
            forall|m: int| 0 <= m < k ==> spec_find_box(#[trigger] boxes@[m], tag) is None,
        decreases n - k,
    {
        match find_in_box(&boxes[k], tag) {
            Some(r) => {
                proof {
                    lemma_find_forest_skip(boxes@, tag, k as int);
                    assert(boxes@.skip(k as int)[0] == boxes@[k as int]);
                }
                return Some(r);
            },
            None => {
                k = k + 1;
            },
        }
    }
    proof {
        lemma_find_forest_skip(boxes@, tag, n as int);
        assert(boxes@.skip(n as int) =~= Seq::<Mp4Box>::empty());
    }
    None
}

/// Searches the forest for the first box whose tag is exactly the four
/// bytes of `box_type`, depth-first and pre-order: a box before its
/// children, siblings in order. Returns nothing exactly when no box at
/// any depth carries the tag.
pub fn find_box<'a>(boxes: &'a [Mp4Box], box_type: &[u8; 4]) -> (r: Option<&'a Mp4Box>)
    ensures
        match spec_find_forest(boxes@, spec_u32_of(box_type@)) {
            None => r is None,
            Some(v) => r is Some && *r.unwrap() == v,
        },
{
    let tag = ((box_type[0] as u32) << 24) | ((box_type[1] as u32) << 16) | ((box_type[2]
        as u32) << 8) | (box_type[3] as u32);
    find_in_forest(boxes, tag)
}

// ---------------------------------------------------------------------------
// The pre-order law
// ---------------------------------------------------------------------------

/// One subtree flattened in pre-order: the box, then its children's
/// subtrees in sibling order.
pub open spec fn spec_preorder_box(b: Mp4Box) -> Seq<Mp4Box>
    decreases b, 0int,
{
    seq![b] + (match b {
        Mp4Box::Moof(c) => spec_preorder(c.data@),
        Mp4Box::Traf(c) => spec_preorder(c.data@),
        Mp4Box::Moov(c) => spec_preorder(c.data@),
        Mp4Box::Trak(c) => spec_preorder(c.data@),
        Mp4Box::Mdia(c) => spec_preorder(c.data@),
        Mp4Box::Minf(c) => spec_preorder(c.data@),
        Mp4Box::Dinf(c) => spec_preorder(c.data@),
        Mp4Box::Stbl(c) => spec_preorder(c.data@),
        Mp4Box::Mvex(c) => spec_preorder(c.data@),
        _ => Seq::empty(),
    })
}

/// A forest flattened in pre-order.
pub open spec fn spec_preorder(s: Seq<Mp4Box>) -> Seq<Mp4Box>
    decreases s, 1int,
{
    if s.len() == 0 {
        Seq::empty()
    } else {
        spec_preorder_box(s[0]) + spec_preorder(s.drop_first())
    }
}

/// What the search result means against the flattened traversal: either
/// no visited box carries the tag, or the result is the first one that
/// does.
pub open spec fn spec_first_match(r: Option<Mp4Box>, p: Seq<Mp4Box>, tag: u32) -> bool {
    match r {
        None => forall|i: int| 0 <= i < p.len() ==> spec_tag_of(#[trigger] p[i]) != tag,
        Some(v) => exists|i: int|
            0 <= i < p.len() && #[trigger] p[i] == v && spec_tag_of(v) == tag && (forall|j: int|
                0 <= j < i ==> spec_tag_of(#[trigger] p[j]) != tag),
    }
}

/// Search law, subtree form: see [`lemma_find_first_preorder`].
pub proof fn lemma_find_first_preorder_box(b: Mp4Box, tag: u32)
    ensures
        spec_first_match(spec_find_box(b, tag), spec_preorder_box(b), tag),
    decreases b, 0int,
{
    let p = spec_preorder_box(b);
    let q: Seq<Mp4Box> = match b {
        Mp4Box::Moof(c) => spec_preorder(c.data@),
        Mp4Box::Traf(c) => spec_preorder(c.data@),
        Mp4Box::Moov(c) => spec_preorder(c.data@),
        Mp4Box::Trak(c) => spec_preorder(c.data@),
        Mp4Box::Mdia(c) => spec_preorder(c.data@),
        Mp4Box::Minf(c) => spec_preorder(c.data@),
        Mp4Box::Dinf(c) => spec_preorder(c.data@),
        Mp4Box::Stbl(c) => spec_preorder(c.data@),
        Mp4Box::Mvex(c) => spec_preorder(c.data@),
        _ => Seq::empty(),
    };
    assert(p == seq![b] + q);
    assert(p[0] == b);
    assert(forall|i: int| 1 <= i < p.len() ==> p[i] == q[i - 1]);
    if spec_tag_of(b) == tag {
        assert(spec_find_box(b, tag) == Some(b));
        assert(p[0] == b && spec_tag_of(b) == tag && (forall|j: int|
            0 <= j < 0 ==> spec_tag_of(#[trigger] p[j]) != tag));
    } else {
        match b {
            Mp4Box::Moof(c) => lemma_find_first_preorder(c.data@, tag),
            Mp4Box::Traf(c) => lemma_find_first_preorder(c.data@, tag),
            Mp4Box::Moov(c) => lemma_find_first_preorder(c.data@, tag),
            Mp4Box::Trak(c) => lemma_find_first_preorder(c.data@, tag),
            Mp4Box::Mdia(c) => lemma_find_first_preorder(c.data@, tag),
            Mp4Box::Minf(c) => lemma_find_first_preorder(c.data@, tag),
            Mp4Box::Dinf(c) => lemma_find_first_preorder(c.data@, tag),
            Mp4Box::Stbl(c) => lemma_find_first_preorder(c.data@, tag),
            Mp4Box::Mvex(c) => lemma_find_first_preorder(c.data@, tag),
            _ => (),
        }
        let r = spec_find_box(b, tag);
        assert(spec_first_match(r, q, tag));
        match r {
            None => {
                assert(forall|i: int| 0 <= i < p.len() ==> spec_tag_of(#[trigger] p[i]) != tag);
            },
            Some(v) => {
                let i = choose|i: int|
                    0 <= i < q.len() && #[trigger] q[i] == v && spec_tag_of(v) == tag && (forall|
                        j: int,
                    |
                        0 <= j < i ==> spec_tag_of(#[trigger] q[j]) != tag);
                assert(p[i + 1] == v);
                assert(forall|j: int| 0 <= j < i + 1 ==> spec_tag_of(#[trigger] p[j]) != tag);
            },
        }
    }
}

/// Search law: the result of the pre-order search is the first match of
/// the flattened pre-order traversal — a box before its children,
/// siblings in order — and nothing exactly when no box at any depth
/// carries the tag.
pub proof fn lemma_find_first_preorder(s: Seq<Mp4Box>, tag: u32)
    ensures
        spec_first_match(spec_find_forest(s, tag), spec_preorder(s), tag),
    decreases s, 1int,
{
    if s.len() == 0 {
    } else {
        let p = spec_preorder(s);
        let pb = spec_preorder_box(s[0]);
        let rest = spec_preorder(s.drop_first());
        assert(p == pb + rest);
        assert(forall|i: int| 0 <= i < pb.len() ==> p[i] == pb[i]);
        assert(forall|i: int| pb.len() <= i < p.len() ==> p[i] == rest[i - pb.len()]);
        lemma_find_first_preorder_box(s[0], tag);
        match spec_find_box(s[0], tag) {
            Some(v) => {
                let i = choose|i: int|
                    0 <= i < pb.len() && #[trigger] pb[i] == v && spec_tag_of(v) == tag && (forall|
                        j: int,
                    |
                        0 <= j < i ==> spec_tag_of(#[trigger] pb[j]) != tag);
                assert(p[i] == v);
                assert(forall|j: int| 0 <= j < i ==> spec_tag_of(#[trigger] p[j]) != tag);
            },
            None => {
                lemma_find_first_preorder(s.drop_first(), tag);
                match spec_find_forest(s.drop_first(), tag) {
                    None => {
                        assert(forall|i: int|
                            0 <= i < p.len() ==> spec_tag_of(#[trigger] p[i]) != tag);
                    },
                    Some(v) => {
                        let i = choose|i: int|
                            0 <= i < rest.len() && #[trigger] rest[i] == v && spec_tag_of(v) == tag
                                && (forall|j: int|
                                0 <= j < i ==> spec_tag_of(#[trigger] rest[j]) != tag);
                        assert(p[i + pb.len()] == v);
                        assert(forall|j: int|
                            0 <= j < i + pb.len() ==> spec_tag_of(#[trigger] p[j]) != tag);
                    },
                }
            },
        }
    }
}

// ---------------------------------------------------------------------------
// Mutable search
// ---------------------------------------------------------------------------

/// How a subtree looks after its first pre-order match was handed out for
/// editing: `ob` is the old subtree holding the match `vo`, `nb` the new
/// one where exactly that node has become `vn` and all else is unchanged.
pub open spec fn spec_rep_box(ob: Mp4Box, nb: Mp4Box, tag: u32, vo: Mp4Box, vn: Mp4Box) -> bool
    decreases ob, 0int,
{
    if spec_tag_of(ob) == tag {
        ob == vo && nb == vn
    } else {
        match (ob, nb) {
            (Mp4Box::Moof(c1), Mp4Box::Moof(c2)) => spec_rep_forest(c1.data@, c2.data@, tag, vo, vn),
            (Mp4Box::Traf(c1), Mp4Box::Traf(c2)) => spec_rep_forest(c1.data@, c2.data@, tag, vo, vn),
            (Mp4Box::Moov(c1), Mp4Box::Moov(c2)) => spec_rep_forest(c1.data@, c2.data@, tag, vo, vn),
            (Mp4Box::Trak(c1), Mp4Box::Trak(c2)) => spec_rep_forest(c1.data@, c2.data@, tag, vo, vn),
            (Mp4Box::Mdia(c1), Mp4Box::Mdia(c2)) => spec_rep_forest(c1.data@, c2.data@, tag, vo, vn),
            (Mp4Box::Minf(c1), Mp4Box::Minf(c2)) => spec_rep_forest(c1.data@, c2.data@, tag, vo, vn),
            (Mp4Box::Dinf(c1), Mp4Box::Dinf(c2)) => spec_rep_forest(c1.data@, c2.data@, tag, vo, vn),
            (Mp4Box::Stbl(c1), Mp4Box::Stbl(c2)) => spec_rep_forest(c1.data@, c2.data@, tag, vo, vn),
            (Mp4Box::Mvex(c1), Mp4Box::Mvex(c2)) => spec_rep_forest(c1.data@, c2.data@, tag, vo, vn),
            _ => false,
        }
    }
}

/// The forest form of [`spec_rep_box`]: subtrees before the first match
/// are untouched, the matching subtree is related by `spec_rep_box`, and
/// everything after it is untouched.
pub open spec fn spec_rep_forest(
    os: Seq<Mp4Box>,
    ns: Seq<Mp4Box>,
    tag: u32,
    vo: Mp4Box,
    vn: Mp4Box,
) -> bool
    decreases os, 1int,
{
    if os.len() == 0 {
        false
    } else if spec_find_box(os[0], tag) is Some {
        ns.len() == os.len() && spec_rep_box(os[0], ns[0], tag, vo, vn) && ns.skip(1) == os.skip(1)
    } else {
        ns.len() == os.len() && ns[0] == os[0] && spec_rep_forest(
            os.skip(1),
            ns.skip(1),
            tag,
            vo,
            vn,
        )
    }
}

/// A pointwise-equal-except-one update at the first matching index is a
/// replacement in the sense of [`spec_rep_forest`].
pub proof fn lemma_rep_forest_at(
    os: Seq<Mp4Box>,
    ns: Seq<Mp4Box>,
    tag: u32,
    vo: Mp4Box,
    vn: Mp4Box,
    i: int,
)
    requires
        0 <= i < os.len(),
        ns.len() == os.len(),
        forall|m: int| 0 <= m < i ==> spec_find_box(#[trigger] os[m], tag) is None,
        forall|m: int| 0 <= m < os.len() && m != i ==> ns[m] == os[m],
        spec_find_box(os[i], tag) is Some,
        spec_rep_box(os[i], ns[i], tag, vo, vn),
    ensures
        spec_rep_forest(os, ns, tag, vo, vn),
    decreases i,
{
    if i == 0 {
        assert(ns.skip(1) =~= os.skip(1));
    } else {
        assert(ns[0] == os[0]);
        let os1 = os.skip(1);
        let ns1 = ns.skip(1);
        assert(forall|m: int| 0 <= m < i - 1 ==> os1[m] == os[m + 1] && spec_find_box(
            #[trigger] os1[m],
            tag,
        ) is None);
        assert(forall|m: int| 0 <= m < os1.len() && m != i - 1 ==> ns1[m] == os1[m]);
        assert(os1[i - 1] == os[i] && ns1[i - 1] == ns[i]);
        lemma_rep_forest_at(os1, ns1, tag, vo, vn, i - 1);
    }
}

/// Mutable indexing that exposes how the final vector relates to the
/// final element.
fn vec_index_mut<'a>(v: &'a mut Vec<Mp4Box>, i: usize) -> (r: &'a mut Mp4Box)
    requires
        i < old(v)@.len(),
    ensures
        *r == old(v)@[i as int],
        final(v)@ == old(v)@.update(i as int, *final(r)),
{
    &mut v[i]
}

/// The index of the first subtree holding a match; the caller guarantees
/// one exists.
fn find_index(boxes: &[Mp4Box], tag: u32) -> (i: usize)
    requires
        spec_find_forest(boxes@, tag) is Some,
    ensures
        i < boxes@.len(),
        forall|m: int| 0 <= m < i ==> spec_find_box(#[trigger] boxes@[m], tag) is None,
        spec_find_box(boxes@[i as int], tag) is Some,
        spec_find_box(boxes@[i as int], tag) == spec_find_forest(boxes@, tag),
{
    let n = boxes.len();
    let mut i: usize = 0;
    while i < n
        invariant
            i <= n,
            n == boxes@.len(),
            spec_find_forest(boxes@, tag) is Some,
            forall|m: int| 0 <= m < i ==> spec_find_box(#[trigger] boxes@[m], tag) is None,
        decreases n - i,
    {
        match find_in_box(&boxes[i], tag) {
            Some(_) => {
                proof {
                    lemma_find_forest_skip(boxes@, tag, i as int);
                    assert(boxes@.skip(i as int)[0] == boxes@[i as int]);
                }
                return i;
            },
            None => {
                i = i + 1;
            },
        }
    }
    proof {
        lemma_find_forest_skip(boxes@, tag, n as int);
        assert(boxes@.skip(n as int) =~= Seq::<Mp4Box>::empty());
        assert(false);
    }
    0
}

/// Exclusive access to the first pre-order match in a forest known to
/// hold one; the final forest differs from the old one only at that node.
fn find_mut_forest_must<'a>(v: &'a mut Vec<Mp4Box>, tag: u32) -> (r: &'a mut Mp4Box)
    requires
        spec_find_forest(old(v)@, tag) is Some,
    ensures
        *r == spec_find_forest(old(v)@, tag).unwrap(),
        spec_rep_forest(old(v)@, final(v)@, tag, spec_find_forest(old(v)@, tag).unwrap(), *final(r)),
    decreases old(v)@, 1int,
{
    let i = find_index(v.as_slice(), tag);
    proof {
        let os = old(v)@;
        let vo = spec_find_forest(os, tag).unwrap();
        assert forall|nb: Mp4Box, vn: Mp4Box| spec_rep_box(
            os[i as int],
            nb,
            tag,
            vo,
            vn,
        ) implies spec_rep_forest(os, os.update(i as int, nb), tag, vo, vn) by {
            lemma_rep_forest_at(os, os.update(i as int, nb), tag, vo, vn, i as int);
        }
    }
    let b = vec_index_mut(v, i);
    let r = find_mut_in_box(b, tag);
    r
}

/// Exclusive access to the first pre-order match inside a subtree known
/// to hold one.
fn find_mut_in_box<'a>(b: &'a mut Mp4Box, tag: u32) -> (r: &'a mut Mp4Box)
    requires
        spec_find_box(*old(b), tag) is Some,
    ensures
        *r == spec_find_box(*old(b), tag).unwrap(),
        spec_rep_box(*old(b), *final(b), tag, spec_find_box(*old(b), tag).unwrap(), *final(r)),
    decreases *old(b), 0int,
{
    if is_box_type(b, tag) {
        return b;
    }
    match b {
        Mp4Box::Moof(c) => find_mut_forest_must(&mut c.data, tag),
        Mp4Box::Traf(c) => find_mut_forest_must(&mut c.data, tag),
        Mp4Box::Moov(c) => find_mut_forest_must(&mut c.data, tag),
        Mp4Box::Trak(c) => find_mut_forest_must(&mut c.data, tag),
        Mp4Box::Mdia(c) => find_mut_forest_must(&mut c.data, tag),
        Mp4Box::Minf(c) => find_mut_forest_must(&mut c.data, tag),
        Mp4Box::Dinf(c) => find_mut_forest_must(&mut c.data, tag),
        Mp4Box::Stbl(c) => find_mut_forest_must(&mut c.data, tag),
        Mp4Box::Mvex(c) => find_mut_forest_must(&mut c.data, tag),
        _ => vstd::pervasive::unreached(),
    }
}

/// Searches like [`find_box`] but hands the first pre-order match out for
/// in-place editing. When no box at any depth carries the tag, nothing is
/// returned and the forest is untouched; otherwise the final forest
/// differs from the old one exactly at the matched node, which has become
/// whatever the caller left behind the returned reference.
pub fn find_box_mut<'a>(boxes: &'a mut Vec<Mp4Box>, box_type: &[u8; 4]) -> (r: Option<
    &'a mut Mp4Box,
>)
    ensures
        match spec_find_forest(old(boxes)@, spec_u32_of(box_type@)) {
            None => r is None && final(boxes)@ == old(boxes)@,
            Some(v) => r is Some && *r.unwrap() == v && spec_rep_forest(
                old(boxes)@,
                final(boxes)@,
                spec_u32_of(box_type@),
                v,
                *final(r.unwrap()),
            ),
        },
{
    let tag = ((box_type[0] as u32) << 24) | ((box_type[1] as u32) << 16) | ((box_type[2]
        as u32) << 8) | (box_type[3] as u32);
    let present = find_in_forest(boxes.as_slice(), tag).is_some();
    if !present {
        return None;
    }
    Some(find_mut_forest_must(boxes, tag))
}

} // verus!
