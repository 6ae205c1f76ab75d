//! The box-boundary engine: the registry dispatch, the recursive box and
//! forest codec, and the two top-level operations.
//!
//! `parse_mp4` decodes a whole buffer into a forest and `write_mp4`
//! serializes a forest back. Their contracts meet in one spec function,
//! [`spec_write_forest`]: a successful parse returns a forest whose
//! serialization is the input, bit for bit, so writing a parsed buffer
//! reproduces it exactly. `spec_scan_forest` says which buffers parse at
//! all, and with which error the others fail.

use vstd::prelude::*;
use vstd::arithmetic::div_mod::lemma_add_mod_noop;
use vstd::arithmetic::div_mod::lemma_small_mod;
use vstd::slice::slice_to_vec;

use crate::errors::Mp4Error;
use crate::frag::{
    parse_senc, parse_trun, spec_senc_body, spec_senc_ok, spec_senc_wf, spec_trun_body,
    spec_trun_ok, spec_trun_wf, write_senc, write_trun,
};
use crate::hdlr::{parse_hdlr, spec_hdlr_body, spec_hdlr_ok, spec_hdlr_wf, write_hdlr};
use crate::movie::{
    parse_mdhd, parse_mvhd, parse_tkhd, spec_mdhd_body, spec_mdhd_ok, spec_mdhd_wf, spec_mvhd_body,
    spec_mvhd_ok, spec_mvhd_wf, spec_tkhd_body, spec_tkhd_ok, spec_tkhd_wf, write_mdhd, write_mvhd,
    write_tkhd,
};
use crate::simple::{
    parse_mfhd, parse_saiz, parse_smhd, parse_tfdt, parse_tfhd, parse_trex, spec_mfhd_body,
    spec_mfhd_ok, spec_mfhd_wf, spec_saiz_body, spec_saiz_ok, spec_saiz_wf, spec_smhd_body,
    spec_smhd_ok, spec_smhd_wf, spec_tfdt_body, spec_tfdt_ok, spec_tfdt_wf, spec_tfhd_body,
    spec_tfhd_ok, spec_tfhd_wf, spec_trex_body, spec_trex_ok, spec_trex_wf, write_mfhd, write_saiz,
    write_smhd, write_tfdt, write_tfhd, write_trex,
};
use crate::tables::{
    parse_ftyp, parse_saio, parse_stco, parse_stsc, parse_stsz, parse_stts, spec_ftyp_body,
    spec_ftyp_ok, spec_ftyp_wf, spec_saio_body, spec_saio_ok, spec_saio_wf, spec_stco_body,
    spec_stco_ok, spec_stco_wf, spec_stsc_body, spec_stsc_ok, spec_stsc_wf, spec_stsz_body,
    spec_stsz_ok, spec_stsz_wf, spec_stts_body, spec_stts_ok, spec_stts_wf, write_ftyp, write_saio,
    write_stco, write_stsc, write_stsz, write_stts,
};
use crate::types::{
    BoxContainer, BoxRaw, Mp4Box, TAG_DINF, TAG_DREF, TAG_EDTS, TAG_FREE, TAG_FTYP, TAG_HDLR,
    TAG_MDAT, TAG_MDHD, TAG_MDIA, TAG_MFHD, TAG_MINF, TAG_MOOF, TAG_MOOV, TAG_MVEX, TAG_MVHD,
    TAG_PSSH, TAG_SAIO, TAG_SAIZ, TAG_SBGP, TAG_SENC, TAG_SGPD, TAG_SMHD, TAG_STBL, TAG_STCO,
    TAG_STSC, TAG_STSD, TAG_STSZ, TAG_STTS, TAG_TFDT, TAG_TFHD, TAG_TKHD, TAG_TRAF, TAG_TRAK,
    TAG_TREX, TAG_TRUN, TAG_UDTA, spec_tag_of,
};
use crate::wire::{
    is_empty, lemma_be32_of, lemma_subrange_all, lemma_subrange_glue, push_bytes, push_u32, read,
    read_u32, spec_be32, spec_u32_of,
};

verus! {

/// The 32-bit box size recomputed from a body length: the low 32 bits of
/// the length plus the 8-byte header, as the wire stores it.
pub open spec fn spec_size32(n: int) -> u32 {
    (n % 0x100000000) as u32
}

/// Whether a tag stands in the registry.
pub open spec fn spec_known_tag(t: u32) -> bool {
    ||| t == TAG_MOOF
    ||| t == TAG_MFHD
    ||| t == TAG_TRAF
    ||| t == TAG_TFHD
    ||| t == TAG_TFDT
    ||| t == TAG_SENC
    ||| t == TAG_SAIZ
    ||| t == TAG_SAIO
    ||| t == TAG_TRUN
    ||| t == TAG_MDAT
    ||| t == TAG_FTYP
    ||| t == TAG_MOOV
    ||| t == TAG_MVHD
    ||| t == TAG_TRAK
    ||| t == TAG_TKHD
    ||| t == TAG_MDIA
    ||| t == TAG_MDHD
    ||| t == TAG_HDLR
    ||| t == TAG_MINF
    ||| t == TAG_SMHD
    ||| t == TAG_DINF
    ||| t == TAG_DREF
    ||| t == TAG_STBL
    ||| t == TAG_STSD
    ||| t == TAG_STTS
    ||| t == TAG_STSC
    ||| t == TAG_STSZ
    ||| t == TAG_STCO
    ||| t == TAG_UDTA
    ||| t == TAG_MVEX
    ||| t == TAG_TREX
    ||| t == TAG_PSSH
    ||| t == TAG_FREE
    ||| t == TAG_EDTS
    ||| t == TAG_SGPD
    ||| t == TAG_SBGP
}

/// Serialization of one box body, after its 8-byte header.
pub open spec fn spec_body_bytes(b: Mp4Box) -> Seq<u8>
    decreases b, 0int,
{
    match b {
        Mp4Box::Moof(c) => spec_write_forest(c.data@),
        Mp4Box::Traf(c) => spec_write_forest(c.data@),
        Mp4Box::Moov(c) => spec_write_forest(c.data@),
        Mp4Box::Trak(c) => spec_write_forest(c.data@),
        Mp4Box::Mdia(c) => spec_write_forest(c.data@),
        Mp4Box::Minf(c) => spec_write_forest(c.data@),
        Mp4Box::Dinf(c) => spec_write_forest(c.data@),
        Mp4Box::Stbl(c) => spec_write_forest(c.data@),
        Mp4Box::Mvex(c) => spec_write_forest(c.data@),
        Mp4Box::Mdat(r) => r.data@,
        Mp4Box::Dref(r) => r.data@,
        Mp4Box::Stsd(r) => r.data@,
        Mp4Box::Udta(r) => r.data@,
        Mp4Box::Pssh(r) => r.data@,
        Mp4Box::Free(r) => r.data@,
        Mp4Box::Edts(r) => r.data@,
        Mp4Box::Sgpd(r) => r.data@,
        Mp4Box::Sbgp(r) => r.data@,
        Mp4Box::Mfhd(v) => spec_mfhd_body(v),
        Mp4Box::Tfhd(v) => spec_tfhd_body(v),
        Mp4Box::Tfdt(v) => spec_tfdt_body(v),
        Mp4Box::Senc(v) => spec_senc_body(v),
        Mp4Box::Saiz(v) => spec_saiz_body(v),
        Mp4Box::Saio(v) => spec_saio_body(v),
        Mp4Box::Trun(v) => spec_trun_body(v),
        Mp4Box::Ftyp(v) => spec_ftyp_body(v),
        Mp4Box::Mvhd(v) => spec_mvhd_body(v),
        Mp4Box::Tkhd(v) => spec_tkhd_body(v),
        Mp4Box::Mdhd(v) => spec_mdhd_body(v),
        Mp4Box::Hdlr(v) => spec_hdlr_body(v),
        Mp4Box::Smhd(v) => spec_smhd_body(v),
        Mp4Box::Stts(v) => spec_stts_body(v),
        Mp4Box::Stsc(v) => spec_stsc_body(v),
        Mp4Box::Stsz(v) => spec_stsz_body(v),
        Mp4Box::Stco(v) => spec_stco_body(v),
        Mp4Box::Trex(v) => spec_trex_body(v),
    }
}

/// Serialization of one whole box: size recomputed from the body, the
/// tag's four raw bytes, then the body.
pub open spec fn spec_write_box(b: Mp4Box) -> Seq<u8>
    decreases b, 1int,
{
    spec_be32(spec_size32(8 + spec_body_bytes(b).len() as int)) + spec_be32(spec_tag_of(b))
        + spec_body_bytes(b)
}

/// Serialization of a forest: each box in sibling order.
pub open spec fn spec_write_forest(s: Seq<Mp4Box>) -> Seq<u8>
    decreases s, 2int,
{
    if s.len() == 0 {
        Seq::empty()
    } else {
        spec_write_box(s[0]) + spec_write_forest(s.drop_first())
    }
}

/// Well-formedness a parse establishes: every guard-gated field agrees
/// with its guard, every fixed-extent field has its extent, recursively.
pub open spec fn spec_wf_box(b: Mp4Box) -> bool
    decreases b,
{
    match b {
        Mp4Box::Moof(c) => spec_wf_children(c.data@),
        Mp4Box::Traf(c) => spec_wf_children(c.data@),
        Mp4Box::Moov(c) => spec_wf_children(c.data@),
        Mp4Box::Trak(c) => spec_wf_children(c.data@),
        Mp4Box::Mdia(c) => spec_wf_children(c.data@),
        Mp4Box::Minf(c) => spec_wf_children(c.data@),
        Mp4Box::Dinf(c) => spec_wf_children(c.data@),
        Mp4Box::Stbl(c) => spec_wf_children(c.data@),
        Mp4Box::Mvex(c) => spec_wf_children(c.data@),
        Mp4Box::Mdat(_) => true,
        Mp4Box::Dref(_) => true,
        Mp4Box::Stsd(_) => true,
        Mp4Box::Udta(_) => true,
        Mp4Box::Pssh(_) => true,
        Mp4Box::Free(_) => true,
        Mp4Box::Edts(_) => true,
        Mp4Box::Sgpd(_) => true,
        Mp4Box::Sbgp(_) => true,
        Mp4Box::Mfhd(v) => spec_mfhd_wf(v),
        Mp4Box::Tfhd(v) => spec_tfhd_wf(v),
        Mp4Box::Tfdt(v) => spec_tfdt_wf(v),
        Mp4Box::Senc(v) => spec_senc_wf(v),
        Mp4Box::Saiz(v) => spec_saiz_wf(v),
        Mp4Box::Saio(v) => spec_saio_wf(v),
        Mp4Box::Trun(v) => spec_trun_wf(v),
        Mp4Box::Ftyp(v) => spec_ftyp_wf(v),
        Mp4Box::Mvhd(v) => spec_mvhd_wf(v),
        Mp4Box::Tkhd(v) => spec_tkhd_wf(v),
        Mp4Box::Mdhd(v) => spec_mdhd_wf(v),
        Mp4Box::Hdlr(v) => spec_hdlr_wf(v),
        Mp4Box::Smhd(v) => spec_smhd_wf(v),
        Mp4Box::Stts(v) => spec_stts_wf(v),
        Mp4Box::Stsc(v) => spec_stsc_wf(v),
        Mp4Box::Stsz(v) => spec_stsz_wf(v),
        Mp4Box::Stco(v) => spec_stco_wf(v),
        Mp4Box::Trex(v) => spec_trex_wf(v),
    }
}

pub open spec fn spec_wf_children(s: Seq<Mp4Box>) -> bool
    decreases s,
{
    forall|i: int| 0 <= i < s.len() ==> spec_wf_box(#[trigger] s[i])
}

pub open spec fn spec_wf_forest(s: Seq<Mp4Box>) -> bool {
    forall|i: int| 0 <= i < s.len() ==> spec_wf_box(#[trigger] s[i])
}

/// Validity and error classification of one box body, by tag.
pub open spec fn spec_body_ok(tag: u32, body: Seq<u8>) -> Result<(), Mp4Error>
    decreases body.len(), 3int,
{
    if tag == TAG_MOOF || tag == TAG_TRAF || tag == TAG_MOOV || tag == TAG_TRAK || tag == TAG_MDIA
        || tag == TAG_MINF || tag == TAG_DINF || tag == TAG_STBL || tag == TAG_MVEX {
        spec_scan_forest(body, 0)
    } else if tag == TAG_MDAT || tag == TAG_DREF || tag == TAG_STSD || tag == TAG_UDTA || tag
        == TAG_PSSH || tag == TAG_FREE || tag == TAG_EDTS || tag == TAG_SGPD || tag == TAG_SBGP {
        Ok(())
    } else if tag == TAG_MFHD {
        spec_mfhd_ok(body)
    } else if tag == TAG_TFHD {
        spec_tfhd_ok(body)
    } else if tag == TAG_TFDT {
        spec_tfdt_ok(body)
    } else if tag == TAG_SENC {
        spec_senc_ok(body)
    } else if tag == TAG_SAIZ {
        spec_saiz_ok(body)
    } else if tag == TAG_SAIO {
        spec_saio_ok(body)
    } else if tag == TAG_TRUN {
        spec_trun_ok(body)
    } else if tag == TAG_FTYP {
        spec_ftyp_ok(body)
    } else if tag == TAG_MVHD {
        spec_mvhd_ok(body)
    } else if tag == TAG_TKHD {
        spec_tkhd_ok(body)
    } else if tag == TAG_MDHD {
        spec_mdhd_ok(body)
    } else if tag == TAG_HDLR {
        spec_hdlr_ok(body)
    } else if tag == TAG_SMHD {
        spec_smhd_ok(body)
    } else if tag == TAG_STTS {
        spec_stts_ok(body)
    } else if tag == TAG_STSC {
        spec_stsc_ok(body)
    } else if tag == TAG_STSZ {
        spec_stsz_ok(body)
    } else if tag == TAG_STCO {
        spec_stco_ok(body)
    } else if tag == TAG_TREX {
        spec_trex_ok(body)
    } else {
        Err(Mp4Error::UnknownBoxType(tag))
    }
}

/// One box boundary at `off`: where the box ends, or why it fails.
/// Reading the 8-byte header needs 8 bytes; the declared size must cover
/// the header and fit in the buffer; the tag must be registered; the body
/// must parse.
pub open spec fn spec_scan_step(s: Seq<u8>, off: nat) -> Result<int, Mp4Error>
    decreases s.len() - off, 1int,
{
    let o = off as int;
    if o + 8 > s.len() {
        Err(Mp4Error::TruncatedInput)
    } else {
        let size = spec_u32_of(s.subrange(o, o + 4)) as int;
        let tag = spec_u32_of(s.subrange(o + 4, o + 8));
        if size < 8 {
            Err(Mp4Error::TruncatedInput)
        } else if o + size > s.len() {
            Err(Mp4Error::TruncatedInput)
        } else if !spec_known_tag(tag) {
            Err(Mp4Error::UnknownBoxType(tag))
        } else {
            match spec_body_ok(tag, s.subrange(o + 8, o + size)) {
                Err(e) => Err(e),
                Ok(_) => Ok(o + size),
            }
        }
    }
}

/// Which buffers parse as a forest from `off` to the end, and with which
/// error the others fail: box after box, each as [`spec_scan_step`] says.
pub open spec fn spec_scan_forest(s: Seq<u8>, off: nat) -> Result<(), Mp4Error>
    decreases s.len() - off, 2int,
{
    let o = off as int;
    if o >= s.len() {
        Ok(())
    } else if o + 8 > s.len() {
        Err(Mp4Error::TruncatedInput)
    } else {
        let size = spec_u32_of(s.subrange(o, o + 4)) as int;
        let tag = spec_u32_of(s.subrange(o + 4, o + 8));
        if size < 8 {
            Err(Mp4Error::TruncatedInput)
        } else if o + size > s.len() {
            Err(Mp4Error::TruncatedInput)
        } else if !spec_known_tag(tag) {
            Err(Mp4Error::UnknownBoxType(tag))
        } else {
            match spec_body_ok(tag, s.subrange(o + 8, o + size)) {
                Err(e) => Err(e),
                Ok(_) => spec_scan_forest(s, (o + size) as nat),
            }
        }
    }
}

/// The forest scan takes one step at a time.
pub proof fn lemma_scan_forest_unfold(s: Seq<u8>, off: nat)
    requires
        off < s.len(),
    ensures
        spec_scan_forest(s, off) == (match spec_scan_step(s, off) {
            Err(e) => Err(e),
            Ok(end) => spec_scan_forest(s, end as nat),
        }),
{
}

pub proof fn lemma_write_forest_push(s: Seq<Mp4Box>, b: Mp4Box)
    ensures
        spec_write_forest(s.push(b)) == spec_write_forest(s) + spec_write_box(b),
    decreases s.len(),
{
    if s.len() == 0 {
        assert(s.push(b).drop_first() =~= Seq::<Mp4Box>::empty());
        assert(s.push(b)[0] == b);
        assert(spec_write_forest(Seq::<Mp4Box>::empty()) == Seq::<u8>::empty());
        assert(spec_write_forest(s.push(b)) == spec_write_box(b) + Seq::<u8>::empty());
        assert(spec_write_box(b) + Seq::<u8>::empty() =~= Seq::<u8>::empty() + spec_write_box(b));
    } else {
        assert(s.push(b).drop_first() =~= s.drop_first().push(b));
        assert(s.push(b)[0] == s[0]);
        lemma_write_forest_push(s.drop_first(), b);
        assert(spec_write_forest(s.push(b)) == spec_write_box(s[0]) + (spec_write_forest(
            s.drop_first(),
        ) + spec_write_box(b)));
        assert(spec_write_box(s[0]) + (spec_write_forest(s.drop_first()) + spec_write_box(b)) =~= (
        spec_write_box(s[0]) + spec_write_forest(s.drop_first())) + spec_write_box(b));
    }
}

pub proof fn lemma_write_forest_take_push(s: Seq<Mp4Box>, k: int)
    requires
        0 <= k < s.len(),
    ensures
        spec_write_forest(s.take(k + 1)) == spec_write_forest(s.take(k)) + spec_write_box(s[k]),
{
    assert(s.take(k + 1) =~= s.take(k).push(s[k]));
    lemma_write_forest_push(s.take(k), s[k]);
}

/// Reads one plain box header: the declared size (which must be at least
/// the header's own 8 bytes and fit in the buffer), the raw tag, and the
/// bounded body slice.
pub fn read_header<'a>(data: &'a [u8], off: usize) -> (r: Result<(u32, &'a [u8], usize), Mp4Error>)
    requires
        off <= data@.len(),
    ensures
        match r {
            Ok(p) => {
                let size = spec_u32_of(data@.subrange(off as int, off as int + 4)) as int;
                &&& off + 8 <= data@.len()
                &&& size >= 8
                &&& off + size <= data@.len()
                &&& p.0 == spec_u32_of(data@.subrange(off as int + 4, off as int + 8))
                &&& p.2 == off + size
                &&& p.1@ == data@.subrange(off as int + 8, off as int + size)
            },
            Err(e) => {
                let size = spec_u32_of(data@.subrange(off as int, off as int + 4)) as int;
                &&& e == Mp4Error::TruncatedInput
                &&& (off + 8 > data@.len() || size < 8 || off + size > data@.len())
            },
        },
{
    let (size, i) = match read_u32(data, off) {
        Ok(p) => p,
        Err(e) => return Err(e),
    };
    let (tag, i) = match read_u32(data, i) {
        Ok(p) => p,
        Err(e) => return Err(e),
    };
    if size < 8 {
        return Err(Mp4Error::TruncatedInput);
    }
    let body_len = (size as usize) - 8;
    let body = match read(data, i, body_len) {
        Some(b) => b,
        None => return Err(Mp4Error::TruncatedInput),
    };
    let dlen = data.len();
    proof {
        assert(i + body_len <= dlen);
    }
    let end = i + body_len;
    Ok((tag, body, end))
}

/// Parses one box at `off`: exactly the step [`spec_scan_step`] accepts,
/// yielding a well-formed box whose serialization is the consumed bytes.
#[verifier::rlimit(100)]
#[verifier::spinoff_prover]
pub fn parse_box(data: &[u8], off: usize) -> (r: Result<(Mp4Box, usize), Mp4Error>)
    requires
        off <= data@.len(),
    ensures
        match r {
            Ok(p) => spec_scan_step(data@, off as nat) == Ok::<int, Mp4Error>(p.1 as int) && off
                < p.1 <= data@.len() && spec_wf_box(p.0) && spec_write_box(p.0) == data@.subrange(
                off as int,
                p.1 as int,
            ),
            Err(e) => spec_scan_step(data@, off as nat) == Err::<int, Mp4Error>(e),
        },
    decreases data@.len() - off, 1int,
{
    let (tag, body, end) = match read_header(data, off) {
        Ok(p) => p,
        Err(e) => return Err(e),
    };
    let bx: Mp4Box = if tag == TAG_MOOF {
        match parse_forest(body, 0) {
            Ok(f) => Mp4Box::Moof(BoxContainer { data: f }),
            Err(e) => return Err(e),
        }
    } else if tag == TAG_TRAF {
        match parse_forest(body, 0) {
            Ok(f) => Mp4Box::Traf(BoxContainer { data: f }),
            Err(e) => return Err(e),
        }
    } else if tag == TAG_MOOV {
        match parse_forest(body, 0) {
            Ok(f) => Mp4Box::Moov(BoxContainer { data: f }),
            Err(e) => return Err(e),
        }
    } else if tag == TAG_TRAK {
        match parse_forest(body, 0) {
            Ok(f) => Mp4Box::Trak(BoxContainer { data: f }),
            Err(e) => return Err(e),
        }
    } else if tag == TAG_MDIA {
        match parse_forest(body, 0) {
            Ok(f) => Mp4Box::Mdia(BoxContainer { data: f }),
            Err(e) => return Err(e),
        }
    } else if tag == TAG_MINF {
        match parse_forest(body, 0) {
            Ok(f) => Mp4Box::Minf(BoxContainer { data: f }),
            Err(e) => return Err(e),
        }
    } else if tag == TAG_DINF {
        match parse_forest(body, 0) {
            Ok(f) => Mp4Box::Dinf(BoxContainer { data: f }),
            Err(e) => return Err(e),
        }
    } else if tag == TAG_STBL {
        match parse_forest(body, 0) {
            Ok(f) => Mp4Box::Stbl(BoxContainer { data: f }),
            Err(e) => return Err(e),
        }
    } else if tag == TAG_MVEX {
        match parse_forest(body, 0) {
            Ok(f) => Mp4Box::Mvex(BoxContainer { data: f }),
            Err(e) => return Err(e),
        }
    } else if tag == TAG_MDAT {
        Mp4Box::Mdat(BoxRaw { data: slice_to_vec(body) })
    } else if tag == TAG_DREF {
        Mp4Box::Dref(BoxRaw { data: slice_to_vec(body) })
    } else if tag == TAG_STSD {
        Mp4Box::Stsd(BoxRaw { data: slice_to_vec(body) })
    } else if tag == TAG_UDTA {
        Mp4Box::Udta(BoxRaw { data: slice_to_vec(body) })
    } else if tag == TAG_PSSH {
        Mp4Box::Pssh(BoxRaw { data: slice_to_vec(body) })
    } else if tag == TAG_FREE {
        Mp4Box::Free(BoxRaw { data: slice_to_vec(body) })
    } else if tag == TAG_EDTS {
        Mp4Box::Edts(BoxRaw { data: slice_to_vec(body) })
    } else if tag == TAG_SGPD {
        Mp4Box::Sgpd(BoxRaw { data: slice_to_vec(body) })
    } else if tag == TAG_SBGP {
        Mp4Box::Sbgp(BoxRaw { data: slice_to_vec(body) })
    } else if tag == TAG_MFHD {
        match parse_mfhd(body) {
            Ok(v) => Mp4Box::Mfhd(v),
            Err(e) => return Err(e),
        }
    } else if tag == TAG_TFHD {
        match parse_tfhd(body) {
            Ok(v) => Mp4Box::Tfhd(v),
            Err(e) => return Err(e),
        }
    } else if tag == TAG_TFDT {
        match parse_tfdt(body) {
            Ok(v) => Mp4Box::Tfdt(v),
            Err(e) => return Err(e),
        }
    } else if tag == TAG_SENC {
        match parse_senc(body) {
            Ok(v) => Mp4Box::Senc(v),
            Err(e) => return Err(e),
        }
    } else if tag == TAG_SAIZ {
        match parse_saiz(body) {
            Ok(v) => Mp4Box::Saiz(v),
            Err(e) => return Err(e),
        }
    } else if tag == TAG_SAIO {
        match parse_saio(body) {
            Ok(v) => Mp4Box::Saio(v),
            Err(e) => return Err(e),
        }
    } else if tag == TAG_TRUN {
        match parse_trun(body) {
            Ok(v) => Mp4Box::Trun(v),
            Err(e) => return Err(e),
        }
    } else if tag == TAG_FTYP {
        match parse_ftyp(body) {
            Ok(v) => Mp4Box::Ftyp(v),
            Err(e) => return Err(e),
        }
    } else if tag == TAG_MVHD {
        match parse_mvhd(body) {
            Ok(v) => Mp4Box::Mvhd(v),
            Err(e) => return Err(e),
        }
    } else if tag == TAG_TKHD {
        match parse_tkhd(body) {
            Ok(v) => Mp4Box::Tkhd(v),
            Err(e) => return Err(e),
        }
    } else if tag == TAG_MDHD {
        match parse_mdhd(body) {
            Ok(v) => Mp4Box::Mdhd(v),
            Err(e) => return Err(e),
        }
    } else if tag == TAG_HDLR {
        match parse_hdlr(body) {
            Ok(v) => Mp4Box::Hdlr(v),
            Err(e) => return Err(e),
        }
    } else if tag == TAG_SMHD {
        match parse_smhd(body) {
            Ok(v) => Mp4Box::Smhd(v),
            Err(e) => return Err(e),
        }
    } else if tag == TAG_STTS {
        match parse_stts(body) {
            Ok(v) => Mp4Box::Stts(v),
            Err(e) => return Err(e),
        }
    } else if tag == TAG_STSC {
        match parse_stsc(body) {
            Ok(v) => Mp4Box::Stsc(v),
            Err(e) => return Err(e),
        }
    } else if tag == TAG_STSZ {
        match parse_stsz(body) {
            Ok(v) => Mp4Box::Stsz(v),
            Err(e) => return Err(e),
        }
    } else if tag == TAG_STCO {
        match parse_stco(body) {
            Ok(v) => Mp4Box::Stco(v),
            Err(e) => return Err(e),
        }
    } else if tag == TAG_TREX {
        match parse_trex(body) {
            Ok(v) => Mp4Box::Trex(v),
            Err(e) => return Err(e),
        }
    } else {
        return Err(Mp4Error::UnknownBoxType(tag));
    };
    proof {
        let s = data@;
        let o = off as int;
        assert(spec_body_bytes(bx) == s.subrange(o + 8, end as int));
        assert(spec_body_bytes(bx).len() == end - o - 8);
        lemma_small_mod((end - o) as nat, 0x100000000);
        assert(spec_size32(8 + spec_body_bytes(bx).len() as int) == spec_u32_of(
            s.subrange(o, o + 4),
        ));
        lemma_be32_of(s.subrange(o, o + 4));
        lemma_be32_of(s.subrange(o + 4, o + 8));
        lemma_subrange_glue(s, o, o + 4, o + 8);
        lemma_subrange_glue(s, o, o + 8, end as int);
        assert(spec_write_box(bx) == s.subrange(o, end as int));
    }
    Ok((bx, end))
}

/// Parses boxes from `off` to the end of the slice, exactly when
/// [`spec_scan_forest`] accepts, yielding a well-formed forest whose
/// serialization is the consumed bytes.
pub fn parse_forest(data: &[u8], off: usize) -> (r: Result<Vec<Mp4Box>, Mp4Error>)
    requires
        off <= data@.len(),
    ensures
        match r {
            Ok(f) => spec_scan_forest(data@, off as nat) is Ok && spec_wf_forest(f@)
                && spec_write_forest(f@) == data@.subrange(off as int, data@.len() as int),
            Err(e) => spec_scan_forest(data@, off as nat) == Err::<(), Mp4Error>(e),
        },
    decreases data@.len() - off, 2int,
{
    let mut boxes: Vec<Mp4Box> = Vec::new();
    let mut cur = off;
    while !is_empty(data, cur)
        invariant
            off <= cur <= data@.len(),
            spec_wf_forest(boxes@),
            spec_write_forest(boxes@) == data@.subrange(off as int, cur as int),
            spec_scan_forest(data@, off as nat) == spec_scan_forest(data@, cur as nat),
        decreases data@.len() - cur,
    {
        match parse_box(data, cur) {
            Ok((bx, end)) => {
                proof {
                    lemma_scan_forest_unfold(data@, cur as nat);
                    lemma_write_forest_push(boxes@, bx);
                    lemma_subrange_glue(data@, off as int, cur as int, end as int);
                    assert(spec_wf_forest(boxes@.push(bx)));
                }
                boxes.push(bx);
                cur = end;
            },
            Err(e) => {
                proof {
                    lemma_scan_forest_unfold(data@, cur as nat);
                }
                return Err(e);
            },
        }
    }
    Ok(boxes)
}

/// Parses a whole buffer as a forest of boxes.
///
/// Succeeds exactly when [`spec_scan_forest`] accepts the buffer, and the
/// returned forest serializes back to the input bit for bit
/// (`spec_write_forest(f@) == input@`), so `write_mp4` applied to the
/// result reproduces the buffer. On failure the error is exactly what the
/// scan classifies: truncation before anything else for a short header or
/// body, an unknown top-level tag by its four raw bytes, ill-formed UTF-8
/// in a string field, or bytes left over against a declared size.
pub fn parse_mp4(input: &[u8]) -> (r: Result<Vec<Mp4Box>, Mp4Error>)
    ensures
        match r {
            Ok(f) => spec_scan_forest(input@, 0) is Ok && spec_wf_forest(f@) && spec_write_forest(
                f@,
            ) == input@,
            Err(e) => spec_scan_forest(input@, 0) == Err::<(), Mp4Error>(e),
        },
{
    let r = parse_forest(input, 0);
    proof {
        lemma_subrange_all(input@);
    }
    r
}

/// The recomputed 32-bit size for a body of this length.
fn size_of_body(data: &Vec<u8>) -> (t: u32)
    ensures
        t == spec_size32(8 + data@.len() as int),
{
    let lo64: u64 = (data.len() as u64) % 0x100000000u64;
    let lo: u32 = lo64 as u32;
    let t = lo.wrapping_add(8);
    proof {
        lemma_add_mod_noop(data@.len() as int, 8, 0x100000000);
        lemma_small_mod(8, 0x100000000);
    }
    t
}

/// Serializes one box: body first, then the header with the size
/// recomputed from the body's actual length.
pub fn write_box(b: &Mp4Box, out: &mut Vec<u8>)
    ensures
        final(out)@ == old(out)@ + spec_write_box(*b),
    decreases b, 1int,
{
    let mut data: Vec<u8> = Vec::new();
    match b {
        Mp4Box::Moof(c) => write_forest(c.data.as_slice(), &mut data),
        Mp4Box::Traf(c) => write_forest(c.data.as_slice(), &mut data),
        Mp4Box::Moov(c) => write_forest(c.data.as_slice(), &mut data),
        Mp4Box::Trak(c) => write_forest(c.data.as_slice(), &mut data),
        Mp4Box::Mdia(c) => write_forest(c.data.as_slice(), &mut data),
        Mp4Box::Minf(c) => write_forest(c.data.as_slice(), &mut data),
        Mp4Box::Dinf(c) => write_forest(c.data.as_slice(), &mut data),
        Mp4Box::Stbl(c) => write_forest(c.data.as_slice(), &mut data),
        Mp4Box::Mvex(c) => write_forest(c.data.as_slice(), &mut data),
        Mp4Box::Mdat(r) => push_bytes(&mut data, &r.data),
        Mp4Box::Dref(r) => push_bytes(&mut data, &r.data),
        Mp4Box::Stsd(r) => push_bytes(&mut data, &r.data),
        Mp4Box::Udta(r) => push_bytes(&mut data, &r.data),
        Mp4Box::Pssh(r) => push_bytes(&mut data, &r.data),
        Mp4Box::Free(r) => push_bytes(&mut data, &r.data),
        Mp4Box::Edts(r) => push_bytes(&mut data, &r.data),
        Mp4Box::Sgpd(r) => push_bytes(&mut data, &r.data),
        Mp4Box::Sbgp(r) => push_bytes(&mut data, &r.data),
        Mp4Box::Mfhd(v) => write_mfhd(v, &mut data),
        Mp4Box::Tfhd(v) => write_tfhd(v, &mut data),
        Mp4Box::Tfdt(v) => write_tfdt(v, &mut data),
        Mp4Box::Senc(v) => write_senc(v, &mut data),
        Mp4Box::Saiz(v) => write_saiz(v, &mut data),
        Mp4Box::Saio(v) => write_saio(v, &mut data),
        Mp4Box::Trun(v) => write_trun(v, &mut data),
        Mp4Box::Ftyp(v) => write_ftyp(v, &mut data),
        Mp4Box::Mvhd(v) => write_mvhd(v, &mut data),
        Mp4Box::Tkhd(v) => write_tkhd(v, &mut data),
        Mp4Box::Mdhd(v) => write_mdhd(v, &mut data),
        Mp4Box::Hdlr(v) => write_hdlr(v, &mut data),
        Mp4Box::Smhd(v) => write_smhd(v, &mut data),
        Mp4Box::Stts(v) => write_stts(v, &mut data),
        Mp4Box::Stsc(v) => write_stsc(v, &mut data),
        Mp4Box::Stsz(v) => write_stsz(v, &mut data),
        Mp4Box::Stco(v) => write_stco(v, &mut data),
        Mp4Box::Trex(v) => write_trex(v, &mut data),
    }
    proof {
        assert(data@ == spec_body_bytes(*b));
    }
    let size = size_of_body(&data);
    let tag = crate::types::tag_of(b);
    push_u32(out, size);
    push_u32(out, tag);
    push_bytes(out, &data);
    proof {
        assert(out@ =~= old(out)@ + spec_write_box(*b));
    }
}

/// Serializes a forest in sibling order.
pub fn write_forest(boxes: &[Mp4Box], out: &mut Vec<u8>)
    ensures
        final(out)@ == old(out)@ + spec_write_forest(boxes@),
    decreases boxes@, 2int,
{
    let n = boxes.len();
    let mut k: usize = 0;
    while k < n
        invariant
            k <= n,
            n == boxes@.len(),
            out@ == old(out)@ + spec_write_forest(boxes@.take(k as int)),
        decreases n - k,
    {
        proof {
            lemma_write_forest_take_push(boxes@, k as int);
        }
        write_box(&boxes[k], out);
        proof {
            assert(out@ =~= old(out)@ + spec_write_forest(boxes@.take(k as int + 1)));
        }
        k = k + 1;
    }
    proof {
        assert(boxes@.take(n as int) =~= boxes@);
    }
}

/// Serializes a forest to bytes.
///
/// The result is exactly `spec_write_forest(boxes@)`: each box's size is
/// recomputed from its serialized body, never taken from parse-time
/// state, so a tree mutated in place serializes consistently. Composed
/// with `parse_mp4`'s contract this is the round trip: for any `input`
/// that parses, `write_mp4` of the parsed forest returns `input`.
pub fn write_mp4(boxes: &[Mp4Box]) -> (r: Vec<u8>)
    ensures
        r@ == spec_write_forest(boxes@),
{
    let mut out: Vec<u8> = Vec::new();
    write_forest(boxes, &mut out);
    out
}

} // verus!
