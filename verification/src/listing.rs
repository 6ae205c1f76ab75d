//! Diagnostic tree listing: one line per box, the 4-character tag name
//! indented two spaces per nesting level, children after their container.

use vstd::prelude::*;
use vstd::string::StringExecFns;

use crate::types::Mp4Box;

verus! {

/// `n` spaces.
pub open spec fn spec_spaces(n: nat) -> Seq<char> {
    Seq::new(n, |i: int| ' ')
}

/// The 4-character name of a box kind, its tag as text.
pub open spec fn spec_box_name(b: Mp4Box) -> Seq<char> {
    match b {
        Mp4Box::Moof(_) => "moof"@,
        Mp4Box::Mfhd(_) => "mfhd"@,
        Mp4Box::Traf(_) => "traf"@,
        Mp4Box::Tfhd(_) => "tfhd"@,
        Mp4Box::Tfdt(_) => "tfdt"@,
        Mp4Box::Senc(_) => "senc"@,
        Mp4Box::Saiz(_) => "saiz"@,
        Mp4Box::Saio(_) => "saio"@,
        Mp4Box::Trun(_) => "trun"@,
        Mp4Box::Mdat(_) => "mdat"@,
        Mp4Box::Ftyp(_) => "ftyp"@,
        Mp4Box::Moov(_) => "moov"@,
        Mp4Box::Mvhd(_) => "mvhd"@,
        Mp4Box::Trak(_) => "trak"@,
        Mp4Box::Tkhd(_) => "tkhd"@,
        Mp4Box::Mdia(_) => "mdia"@,
        Mp4Box::Mdhd(_) => "mdhd"@,
        Mp4Box::Hdlr(_) => "hdlr"@,
        Mp4Box::Minf(_) => "minf"@,
        Mp4Box::Smhd(_) => "smhd"@,
        Mp4Box::Dinf(_) => "dinf"@,
        Mp4Box::Dref(_) => "dref"@,
        Mp4Box::Stbl(_) => "stbl"@,
        Mp4Box::Stsd(_) => "stsd"@,
        Mp4Box::Stts(_) => "stts"@,
        Mp4Box::Stsc(_) => "stsc"@,
        Mp4Box::Stsz(_) => "stsz"@,
        Mp4Box::Stco(_) => "stco"@,
        Mp4Box::Udta(_) => "udta"@,
        Mp4Box::Mvex(_) => "mvex"@,
        Mp4Box::Trex(_) => "trex"@,
        Mp4Box::Pssh(_) => "pssh"@,
        Mp4Box::Free(_) => "free"@,
        Mp4Box::Edts(_) => "edts"@,
        Mp4Box::Sgpd(_) => "sgpd"@,
        Mp4Box::Sbgp(_) => "sbgp"@,
    }
}

/// Listing of one box at a depth: its own line, then its children one
/// level deeper.
pub open spec fn spec_listing_box(b: Mp4Box, depth: nat) -> Seq<char>
    decreases b, 0int,
{
    spec_spaces(2 * depth) + spec_box_name(b) + seq!['\n'] + (match b {
        Mp4Box::Moof(c) => spec_listing(c.data@, depth + 1),
        Mp4Box::Traf(c) => spec_listing(c.data@, depth + 1),
        Mp4Box::Moov(c) => spec_listing(c.data@, depth + 1),
        Mp4Box::Trak(c) => spec_listing(c.data@, depth + 1),
        Mp4Box::Mdia(c) => spec_listing(c.data@, depth + 1),
        Mp4Box::Minf(c) => spec_listing(c.data@, depth + 1),
        Mp4Box::Dinf(c) => spec_listing(c.data@, depth + 1),
        Mp4Box::Stbl(c) => spec_listing(c.data@, depth + 1),
        Mp4Box::Mvex(c) => spec_listing(c.data@, depth + 1),
        _ => Seq::empty(),
    })
}

/// Listing of a forest at a depth, in sibling order.
pub open spec fn spec_listing(s: Seq<Mp4Box>, depth: nat) -> Seq<char>
    decreases s, 1int,
{
    if s.len() == 0 {
        Seq::empty()
    } else {
        spec_listing_box(s[0], depth) + spec_listing(s.drop_first(), depth)
    }
}

pub proof fn lemma_listing_push(s: Seq<Mp4Box>, b: Mp4Box, depth: nat)
    ensures
        spec_listing(s.push(b), depth) == spec_listing(s, depth) + spec_listing_box(b, depth),
    decreases s.len(),
{
    if s.len() == 0 {
        assert(s.push(b).drop_first() =~= Seq::<Mp4Box>::empty());
        assert(s.push(b)[0] == b);
        assert(spec_listing(Seq::<Mp4Box>::empty(), depth) == Seq::<char>::empty());
        assert(spec_listing(s.push(b), depth) == spec_listing_box(b, depth) + Seq::<
            char,
        >::empty());
        assert(spec_listing_box(b, depth) + Seq::<char>::empty() =~= Seq::<char>::empty()
            + spec_listing_box(b, depth));
    } else {
        assert(s.push(b).drop_first() =~= s.drop_first().push(b));
        assert(s.push(b)[0] == s[0]);
        lemma_listing_push(s.drop_first(), b, depth);
        assert(spec_listing(s.push(b), depth) == spec_listing_box(s[0], depth) + (spec_listing(
            s.drop_first(),
            depth,
        ) + spec_listing_box(b, depth)));
        assert(spec_listing_box(s[0], depth) + (spec_listing(s.drop_first(), depth)
            + spec_listing_box(b, depth)) =~= (spec_listing_box(s[0], depth) + spec_listing(
            s.drop_first(),
            depth,
        )) + spec_listing_box(b, depth));
    }
}

pub proof fn lemma_listing_take_push(s: Seq<Mp4Box>, depth: nat, k: int)
    requires
        0 <= k < s.len(),
    ensures
        spec_listing(s.take(k + 1), depth) == spec_listing(s.take(k), depth) + spec_listing_box(
            s[k],
            depth,
        ),
{
    assert(s.take(k + 1) =~= s.take(k).push(s[k]));
    lemma_listing_push(s.take(k), s[k], depth);
}

pub fn box_name(b: &Mp4Box) -> (r: &'static str)
    ensures
        r@ == spec_box_name(*b),
{
    match b {
        Mp4Box::Moof(_) => "moof",
        Mp4Box::Mfhd(_) => "mfhd",
        Mp4Box::Traf(_) => "traf",
        Mp4Box::Tfhd(_) => "tfhd",
        Mp4Box::Tfdt(_) => "tfdt",
        Mp4Box::Senc(_) => "senc",
        Mp4Box::Saiz(_) => "saiz",
        Mp4Box::Saio(_) => "saio",
        Mp4Box::Trun(_) => "trun",
        Mp4Box::Mdat(_) => "mdat",
        Mp4Box::Ftyp(_) => "ftyp",
        Mp4Box::Moov(_) => "moov",
        Mp4Box::Mvhd(_) => "mvhd",
        Mp4Box::Trak(_) => "trak",
        Mp4Box::Tkhd(_) => "tkhd",
        Mp4Box::Mdia(_) => "mdia",
        Mp4Box::Mdhd(_) => "mdhd",
        Mp4Box::Hdlr(_) => "hdlr",
        Mp4Box::Minf(_) => "minf",
        Mp4Box::Smhd(_) => "smhd",
        Mp4Box::Dinf(_) => "dinf",
        Mp4Box::Dref(_) => "dref",
        Mp4Box::Stbl(_) => "stbl",
        Mp4Box::Stsd(_) => "stsd",
        Mp4Box::Stts(_) => "stts",
        Mp4Box::Stsc(_) => "stsc",
        Mp4Box::Stsz(_) => "stsz",
        Mp4Box::Stco(_) => "stco",
        Mp4Box::Udta(_) => "udta",
        Mp4Box::Mvex(_) => "mvex",
        Mp4Box::Trex(_) => "trex",
        Mp4Box::Pssh(_) => "pssh",
        Mp4Box::Free(_) => "free",
        Mp4Box::Edts(_) => "edts",
        Mp4Box::Sgpd(_) => "sgpd",
        Mp4Box::Sbgp(_) => "sbgp",
    }
}

/// Appends the listing of one box; `prefix` carries the indentation of
/// this depth so no arithmetic on the depth happens at run time.
fn append_listing_box(b: &Mp4Box, prefix: &String, Ghost(depth): Ghost<nat>, out: &mut String)
    requires
        prefix@ == spec_spaces(2 * depth),
    ensures
        final(out)@ == old(out)@ + spec_listing_box(*b, depth),
    decreases b, 0int,
{
    out.append(prefix.as_str());
    out.append(box_name(b));
    out.append("\n");
    proof {
        reveal_strlit("\n");
        assert("\n"@ =~= seq!['\n']);
    }
    let mut deeper = prefix.clone();
    deeper.append("  ");
    proof {
        reveal_strlit("  ");
        assert(deeper@ =~= spec_spaces(2 * (depth + 1)));
    }
    match b {
        Mp4Box::Moof(c) => append_listing(c.data.as_slice(), &deeper, Ghost(depth + 1), out),
        Mp4Box::Traf(c) => append_listing(c.data.as_slice(), &deeper, Ghost(depth + 1), out),
        Mp4Box::Moov(c) => append_listing(c.data.as_slice(), &deeper, Ghost(depth + 1), out),
        Mp4Box::Trak(c) => append_listing(c.data.as_slice(), &deeper, Ghost(depth + 1), out),
        Mp4Box::Mdia(c) => append_listing(c.data.as_slice(), &deeper, Ghost(depth + 1), out),
        Mp4Box::Minf(c) => append_listing(c.data.as_slice(), &deeper, Ghost(depth + 1), out),
        Mp4Box::Dinf(c) => append_listing(c.data.as_slice(), &deeper, Ghost(depth + 1), out),
        Mp4Box::Stbl(c) => append_listing(c.data.as_slice(), &deeper, Ghost(depth + 1), out),
        Mp4Box::Mvex(c) => append_listing(c.data.as_slice(), &deeper, Ghost(depth + 1), out),
        _ => (),
    }
    proof {
        assert(out@ =~= old(out)@ + spec_listing_box(*b, depth));
    }
}

/// Appends the listing of a forest.
fn append_listing(boxes: &[Mp4Box], prefix: &String, Ghost(depth): Ghost<nat>, out: &mut String)
    requires
        prefix@ == spec_spaces(2 * depth),
    ensures
        final(out)@ == old(out)@ + spec_listing(boxes@, depth),
    decreases boxes@, 1int,
{
    let n = boxes.len();
    let mut k: usize = 0;
    while k < n
        invariant
            k <= n,
            n == boxes@.len(),
            prefix@ == spec_spaces(2 * depth),
            out@ == old(out)@ + spec_listing(boxes@.take(k as int), depth),
        decreases n - k,
    {
        proof {
            lemma_listing_take_push(boxes@, depth, k as int);
        }
        append_listing_box(&boxes[k], prefix, Ghost(depth), out);
        proof {
            assert(out@ =~= old(out)@ + spec_listing(boxes@.take(k as int + 1), depth));
        }
        k = k + 1;
    }
    proof {
        assert(boxes@.take(n as int) =~= boxes@);
    }
}

/// Renders the box tree as text, one line per box: the box's 4-character
/// tag name indented two spaces per depth level, `indent` levels for the
/// roots, children one level deeper, a newline after every name.
pub fn list_box_tree(boxes: &[Mp4Box], indent: usize) -> (r: String)
    ensures
        r@ == spec_listing(boxes@, indent as nat),
{
    let mut prefix = String::new();
    let mut k: usize = 0;
    while k < indent
        invariant
            k <= indent,
            prefix@ == spec_spaces(2 * (k as nat)),
        decreases indent - k,
    {
        prefix.append("  ");
        proof {
            reveal_strlit("  ");
            assert(prefix@ =~= spec_spaces(2 * (k as nat + 1)));
        }
        k = k + 1;
    }
    let mut out = String::new();
    append_listing(boxes, &prefix, Ghost(indent as nat), &mut out);
    out
}

// ---------------------------------------------------------------------------
// The indentation law
// ---------------------------------------------------------------------------

/// One rendered line: `2 * depth` spaces, the name, a newline.
pub open spec fn spec_render_line(depth: nat, name: Seq<char>) -> Seq<char> {
    spec_spaces(2 * depth) + name + seq!['\n']
}

pub open spec fn spec_render(lines: Seq<(nat, Seq<char>)>) -> Seq<char>
    decreases lines.len(),
{
    if lines.len() == 0 {
        Seq::empty()
    } else {
        spec_render_line(lines[0].0, lines[0].1) + spec_render(lines.drop_first())
    }
}

/// The boxes of one subtree in pre-order, each with its depth and name.
pub open spec fn spec_depth_lines_box(b: Mp4Box, depth: nat) -> Seq<(nat, Seq<char>)>
    decreases b, 0int,
{
    seq![(depth, spec_box_name(b))] + (match b {
        Mp4Box::Moof(c) => spec_depth_lines(c.data@, depth + 1),
        Mp4Box::Traf(c) => spec_depth_lines(c.data@, depth + 1),
        Mp4Box::Moov(c) => spec_depth_lines(c.data@, depth + 1),
        Mp4Box::Trak(c) => spec_depth_lines(c.data@, depth + 1),
        Mp4Box::Mdia(c) => spec_depth_lines(c.data@, depth + 1),
        Mp4Box::Minf(c) => spec_depth_lines(c.data@, depth + 1),
        Mp4Box::Dinf(c) => spec_depth_lines(c.data@, depth + 1),
        Mp4Box::Stbl(c) => spec_depth_lines(c.data@, depth + 1),
        Mp4Box::Mvex(c) => spec_depth_lines(c.data@, depth + 1),
        _ => Seq::empty(),
    })
}

pub open spec fn spec_depth_lines(s: Seq<Mp4Box>, depth: nat) -> Seq<(nat, Seq<char>)>
    decreases s, 1int,
{
    if s.len() == 0 {
        Seq::empty()
    } else {
        spec_depth_lines_box(s[0], depth) + spec_depth_lines(s.drop_first(), depth)
    }
}

pub proof fn lemma_render_concat(a: Seq<(nat, Seq<char>)>, b: Seq<(nat, Seq<char>)>)
    ensures
        spec_render(a + b) == spec_render(a) + spec_render(b),
    decreases a.len(),
{
    if a.len() == 0 {
        assert(a + b =~= b);
        assert(spec_render(a) + spec_render(b) =~= spec_render(b));
    } else {
        assert((a + b).drop_first() =~= a.drop_first() + b);
        assert((a + b)[0] == a[0]);
        lemma_render_concat(a.drop_first(), b);
        assert(spec_render(a + b) == spec_render_line(a[0].0, a[0].1) + (spec_render(
            a.drop_first(),
        ) + spec_render(b)));
        assert(spec_render_line(a[0].0, a[0].1) + (spec_render(a.drop_first()) + spec_render(b))
            =~= (spec_render_line(a[0].0, a[0].1) + spec_render(a.drop_first())) + spec_render(b));
    }
}

/// Listing depth law, box form: see [`lemma_listing_depth`].
pub proof fn lemma_listing_depth_box(b: Mp4Box, depth: nat)
    ensures
        spec_listing_box(b, depth) == spec_render(spec_depth_lines_box(b, depth)),
    decreases b, 0int,
{
    let tail: Seq<(nat, Seq<char>)> = match b {
        Mp4Box::Moof(c) => spec_depth_lines(c.data@, depth + 1),
        Mp4Box::Traf(c) => spec_depth_lines(c.data@, depth + 1),
        Mp4Box::Moov(c) => spec_depth_lines(c.data@, depth + 1),
        Mp4Box::Trak(c) => spec_depth_lines(c.data@, depth + 1),
        Mp4Box::Mdia(c) => spec_depth_lines(c.data@, depth + 1),
        Mp4Box::Minf(c) => spec_depth_lines(c.data@, depth + 1),
        Mp4Box::Dinf(c) => spec_depth_lines(c.data@, depth + 1),
        Mp4Box::Stbl(c) => spec_depth_lines(c.data@, depth + 1),
        Mp4Box::Mvex(c) => spec_depth_lines(c.data@, depth + 1),
        _ => Seq::empty(),
    };
    match b {
        Mp4Box::Moof(c) => lemma_listing_depth(c.data@, depth + 1),
        Mp4Box::Traf(c) => lemma_listing_depth(c.data@, depth + 1),
        Mp4Box::Moov(c) => lemma_listing_depth(c.data@, depth + 1),
        Mp4Box::Trak(c) => lemma_listing_depth(c.data@, depth + 1),
        Mp4Box::Mdia(c) => lemma_listing_depth(c.data@, depth + 1),
        Mp4Box::Minf(c) => lemma_listing_depth(c.data@, depth + 1),
        Mp4Box::Dinf(c) => lemma_listing_depth(c.data@, depth + 1),
        Mp4Box::Stbl(c) => lemma_listing_depth(c.data@, depth + 1),
        Mp4Box::Mvex(c) => lemma_listing_depth(c.data@, depth + 1),
        _ => (),
    }
    let head = seq![(depth, spec_box_name(b))];
    lemma_render_concat(head, tail);
    assert(head.drop_first() =~= Seq::<(nat, Seq<char>)>::empty());
    assert(head[0] == (depth, spec_box_name(b)));
    assert(spec_render(Seq::<(nat, Seq<char>)>::empty()) == Seq::<char>::empty());
    assert(spec_render(head) =~= spec_render_line(depth, spec_box_name(b)));
    assert(spec_listing_box(b, depth) =~= spec_render(spec_depth_lines_box(b, depth)));
}

/// Listing depth law: the listing of a forest is exactly the pre-order
/// rendering in which every box contributes one line of `2 × depth`
/// spaces, its 4-character name, and a newline — the roots at `depth`,
/// each container's children one level deeper.
pub proof fn lemma_listing_depth(s: Seq<Mp4Box>, depth: nat)
    ensures
        spec_listing(s, depth) == spec_render(spec_depth_lines(s, depth)),
    decreases s, 1int,
{
    if s.len() == 0 {
    } else {
        lemma_listing_depth_box(s[0], depth);
        lemma_listing_depth(s.drop_first(), depth);
        lemma_render_concat(spec_depth_lines_box(s[0], depth), spec_depth_lines(
            s.drop_first(),
            depth,
        ));
    }
}

} // verus!
