//! Full-box kinds whose bodies are a fixed run of scalar fields, possibly
//! with fields gated by flag bits or by an earlier sibling field.
//!
//! Each kind comes as four items that together pin the codec down:
//! a serialization function (`spec_*_body`), a well-formedness predicate
//! (`spec_*_wf`, the guard/presence consistency a parse establishes), a
//! validity classifier over raw bodies (`spec_*_ok`, saying exactly which
//! bodies parse and which error the others raise), and the executable
//! parse and write routines proved against all three.

use vstd::prelude::*;

use crate::errors::Mp4Error;
use crate::types::{BoxMfhd, BoxSaiz, BoxSmhd, BoxTfdt, BoxTfhd, BoxTrex};
use crate::wire::{
    lemma_subrange_all, lemma_subrange_glue, push_bytes, push_i16, push_u24, push_u32, push_u64,
    push_u8, read_bytes, read_fullbox_header, read_i16, read_u32, read_u64, read_u8, spec_be24,
    spec_be32, spec_be64, spec_be_i16, spec_opt32, spec_opt64, spec_opt8, spec_u24_of,
};

verus! {

// ---------------------------------------------------------------------------
// Mfhd
// ---------------------------------------------------------------------------

pub open spec fn spec_mfhd_body(b: BoxMfhd) -> Seq<u8> {
    seq![b.version] + spec_be24(b.flags) + spec_be32(b.seq_num)
}

pub open spec fn spec_mfhd_wf(b: BoxMfhd) -> bool {
    b.flags < 0x1000000
}

/// A body parses exactly when it is 8 bytes: the full-box header plus
/// `seq_num`. Shorter bodies are truncated; longer ones leave bytes over.
pub open spec fn spec_mfhd_ok(body: Seq<u8>) -> Result<(), Mp4Error> {
    if body.len() < 8 {
        Err(Mp4Error::TruncatedInput)
    } else if body.len() > 8 {
        Err(Mp4Error::SizeMismatch)
    } else {
        Ok(())
    }
}

pub fn parse_mfhd(body: &[u8]) -> (r: Result<BoxMfhd, Mp4Error>)
    ensures
        match r {
            Ok(b) => spec_mfhd_ok(body@) is Ok && spec_mfhd_wf(b) && spec_mfhd_body(b) == body@,
            Err(e) => spec_mfhd_ok(body@) == Err::<(), Mp4Error>(e),
        },
{
    let (version, flags, i) = match read_fullbox_header(body, 0) {
        Ok(p) => p,
        Err(e) => return Err(e),
    };
    let (seq_num, i) = match read_u32(body, i) {
        Ok(p) => p,
        Err(e) => return Err(e),
    };
    if i != body.len() {
        return Err(Mp4Error::SizeMismatch);
    }
    let b = BoxMfhd { version, flags, seq_num };
    proof {
        lemma_subrange_glue(body@, 0, 4, 8);
        lemma_subrange_all(body@);
    }
    Ok(b)
}

pub fn write_mfhd(b: &BoxMfhd, out: &mut Vec<u8>)
    ensures
        final(out)@ == old(out)@ + spec_mfhd_body(*b),
{
    push_u8(out, b.version);
    push_u24(out, b.flags);
    push_u32(out, b.seq_num);
    proof {
        assert(out@ =~= old(out)@ + spec_mfhd_body(*b));
    }
}

// ---------------------------------------------------------------------------
// Tfdt
// ---------------------------------------------------------------------------

pub open spec fn spec_tfdt_body(b: BoxTfdt) -> Seq<u8> {
    seq![b.version] + spec_be24(b.flags) + spec_be64(b.base_media_decode_time)
}

pub open spec fn spec_tfdt_wf(b: BoxTfdt) -> bool {
    b.flags < 0x1000000
}

/// A body parses exactly when it is 12 bytes: the full-box header plus the
/// 64-bit decode time.
pub open spec fn spec_tfdt_ok(body: Seq<u8>) -> Result<(), Mp4Error> {
    if body.len() < 12 {
        Err(Mp4Error::TruncatedInput)
    } else if body.len() > 12 {
        Err(Mp4Error::SizeMismatch)
    } else {
        Ok(())
    }
}

pub fn parse_tfdt(body: &[u8]) -> (r: Result<BoxTfdt, Mp4Error>)
    ensures
        match r {
            Ok(b) => spec_tfdt_ok(body@) is Ok && spec_tfdt_wf(b) && spec_tfdt_body(b) == body@,
            Err(e) => spec_tfdt_ok(body@) == Err::<(), Mp4Error>(e),
        },
{
    let (version, flags, i) = match read_fullbox_header(body, 0) {
        Ok(p) => p,
        Err(e) => return Err(e),
    };
    let (base_media_decode_time, i) = match read_u64(body, i) {
        Ok(p) => p,
        Err(e) => return Err(e),
    };
    if i != body.len() {
        return Err(Mp4Error::SizeMismatch);
    }
    let b = BoxTfdt { version, flags, base_media_decode_time };
    proof {
        lemma_subrange_glue(body@, 0, 4, 12);
        lemma_subrange_all(body@);
    }
    Ok(b)
}

pub fn write_tfdt(b: &BoxTfdt, out: &mut Vec<u8>)
    ensures
        final(out)@ == old(out)@ + spec_tfdt_body(*b),
{
    push_u8(out, b.version);
    push_u24(out, b.flags);
    push_u64(out, b.base_media_decode_time);
    proof {
        assert(out@ =~= old(out)@ + spec_tfdt_body(*b));
    }
}

// ---------------------------------------------------------------------------
// Trex
// ---------------------------------------------------------------------------

pub open spec fn spec_trex_body(b: BoxTrex) -> Seq<u8> {
    seq![b.version] + spec_be24(b.flags) + spec_be32(b.track_id) + spec_be32(
        b.default_sample_description_index,
    ) + spec_be32(b.default_sample_duration) + spec_be32(b.default_sample_size) + spec_be32(
        b.default_sample_flags,
    )
}

pub open spec fn spec_trex_wf(b: BoxTrex) -> bool {
    b.flags < 0x1000000
}

/// A body parses exactly when it is 24 bytes: the full-box header plus
/// five 32-bit defaults.
pub open spec fn spec_trex_ok(body: Seq<u8>) -> Result<(), Mp4Error> {
    if body.len() < 24 {
        Err(Mp4Error::TruncatedInput)
    } else if body.len() > 24 {
        Err(Mp4Error::SizeMismatch)
    } else {
        Ok(())
    }
}

pub fn parse_trex(body: &[u8]) -> (r: Result<BoxTrex, Mp4Error>)
    ensures
        match r {
            Ok(b) => spec_trex_ok(body@) is Ok && spec_trex_wf(b) && spec_trex_body(b) == body@,
            Err(e) => spec_trex_ok(body@) == Err::<(), Mp4Error>(e),
        },
{
    let (version, flags, i) = match read_fullbox_header(body, 0) {
        Ok(p) => p,
        Err(e) => return Err(e),
    };
    let (track_id, i) = match read_u32(body, i) {
        Ok(p) => p,
        Err(e) => return Err(e),
    };
    let (default_sample_description_index, i) = match read_u32(body, i) {
        Ok(p) => p,
        Err(e) => return Err(e),
    };
    let (default_sample_duration, i) = match read_u32(body, i) {
        Ok(p) => p,
        Err(e) => return Err(e),
    };
    let (default_sample_size, i) = match read_u32(body, i) {
        Ok(p) => p,
        Err(e) => return Err(e),
    };
    let (default_sample_flags, i) = match read_u32(body, i) {
        Ok(p) => p,
        Err(e) => return Err(e),
    };
    if i != body.len() {
        return Err(Mp4Error::SizeMismatch);
    }
    let b = BoxTrex {
        version,
        flags,
        track_id,
        default_sample_description_index,
        default_sample_duration,
        default_sample_size,
        default_sample_flags,
    };
    proof {
        lemma_subrange_glue(body@, 0, 4, 8);
        lemma_subrange_glue(body@, 0, 8, 12);
        lemma_subrange_glue(body@, 0, 12, 16);
        lemma_subrange_glue(body@, 0, 16, 20);
        lemma_subrange_glue(body@, 0, 20, 24);
        lemma_subrange_all(body@);
    }
    Ok(b)
}

pub fn write_trex(b: &BoxTrex, out: &mut Vec<u8>)
    ensures
        final(out)@ == old(out)@ + spec_trex_body(*b),
{
    push_u8(out, b.version);
    push_u24(out, b.flags);
    push_u32(out, b.track_id);
    push_u32(out, b.default_sample_description_index);
    push_u32(out, b.default_sample_duration);
    push_u32(out, b.default_sample_size);
    push_u32(out, b.default_sample_flags);
    proof {
        assert(out@ =~= old(out)@ + spec_trex_body(*b));
    }
}

// ---------------------------------------------------------------------------
// Smhd
// ---------------------------------------------------------------------------

pub open spec fn spec_smhd_body(b: BoxSmhd) -> Seq<u8> {
    seq![b.version] + spec_be24(b.flags) + spec_be_i16(b.balance) + b.reserved1@
}

pub open spec fn spec_smhd_wf(b: BoxSmhd) -> bool {
    b.flags < 0x1000000 && b.reserved1@.len() == 2
}

/// A body parses exactly when it is 8 bytes: the full-box header, the
/// balance, and two reserved bytes.
pub open spec fn spec_smhd_ok(body: Seq<u8>) -> Result<(), Mp4Error> {
    if body.len() < 8 {
        Err(Mp4Error::TruncatedInput)
    } else if body.len() > 8 {
        Err(Mp4Error::SizeMismatch)
    } else {
        Ok(())
    }
}

pub fn parse_smhd(body: &[u8]) -> (r: Result<BoxSmhd, Mp4Error>)
    ensures
        match r {
            Ok(b) => spec_smhd_ok(body@) is Ok && spec_smhd_wf(b) && spec_smhd_body(b) == body@,
            Err(e) => spec_smhd_ok(body@) == Err::<(), Mp4Error>(e),
        },
{
    let (version, flags, i) = match read_fullbox_header(body, 0) {
        Ok(p) => p,
        Err(e) => return Err(e),
    };
    let (balance, i) = match read_i16(body, i) {
        Ok(p) => p,
        Err(e) => return Err(e),
    };
    let (reserved1, i) = match read_bytes(body, i, 2) {
        Ok(p) => p,
        Err(e) => return Err(e),
    };
    if i != body.len() {
        return Err(Mp4Error::SizeMismatch);
    }
    let b = BoxSmhd { version, flags, balance, reserved1 };
    proof {
        lemma_subrange_glue(body@, 0, 4, 6);
        lemma_subrange_glue(body@, 0, 6, 8);
        lemma_subrange_all(body@);
    }
    Ok(b)
}

pub fn write_smhd(b: &BoxSmhd, out: &mut Vec<u8>)
    ensures
        final(out)@ == old(out)@ + spec_smhd_body(*b),
{
    push_u8(out, b.version);
    push_u24(out, b.flags);
    push_i16(out, b.balance);
    push_bytes(out, &b.reserved1);
    proof {
        assert(out@ =~= old(out)@ + spec_smhd_body(*b));
    }
}

// ---------------------------------------------------------------------------
// Tfhd
// ---------------------------------------------------------------------------

pub open spec fn spec_tfhd_body(b: BoxTfhd) -> Seq<u8> {
    seq![b.version] + spec_be24(b.flags) + spec_be32(b.track_id) + spec_opt64(b.base_data_offset)
        + spec_opt32(b.sample_description_index) + spec_opt32(b.default_sample_duration)
        + spec_opt32(b.default_sample_size) + spec_opt32(b.default_sample_flags)
}

/// Each optional field is present exactly when its flag bit is set.
pub open spec fn spec_tfhd_wf(b: BoxTfhd) -> bool {
    &&& b.flags < 0x1000000
    &&& (b.base_data_offset is Some <==> b.flags & 0x000001 != 0)
    &&& (b.sample_description_index is Some <==> b.flags & 0x000002 != 0)
    &&& (b.default_sample_duration is Some <==> b.flags & 0x000008 != 0)
    &&& (b.default_sample_size is Some <==> b.flags & 0x000010 != 0)
    &&& (b.default_sample_flags is Some <==> b.flags & 0x000020 != 0)
}

/// Number of body bytes a `Tfhd` with these flags occupies: the header,
/// `track_id`, and one slot per set guard bit.
pub open spec fn spec_tfhd_len(flags: u32) -> int {
    8 + (if flags & 0x000001 != 0 {
        8int
    } else {
        0
    }) + (if flags & 0x000002 != 0 {
        4int
    } else {
        0
    }) + (if flags & 0x000008 != 0 {
        4int
    } else {
        0
    }) + (if flags & 0x000010 != 0 {
        4int
    } else {
        0
    }) + (if flags & 0x000020 != 0 {
        4int
    } else {
        0
    })
}

/// A body parses exactly when its length matches what its own flags call
/// for.
pub open spec fn spec_tfhd_ok(body: Seq<u8>) -> Result<(), Mp4Error> {
    if body.len() < 4 {
        Err(Mp4Error::TruncatedInput)
    } else {
        let flags = spec_u24_of(body.subrange(1, 4));
        if body.len() < spec_tfhd_len(flags) {
            Err(Mp4Error::TruncatedInput)
        } else if body.len() > spec_tfhd_len(flags) {
            Err(Mp4Error::SizeMismatch)
        } else {
            Ok(())
        }
    }
}

pub fn parse_tfhd(body: &[u8]) -> (r: Result<BoxTfhd, Mp4Error>)
    ensures
        match r {
            Ok(b) => spec_tfhd_ok(body@) is Ok && spec_tfhd_wf(b) && spec_tfhd_body(b) == body@,
            Err(e) => spec_tfhd_ok(body@) == Err::<(), Mp4Error>(e),
        },
{
    let (version, flags, i) = match read_fullbox_header(body, 0) {
        Ok(p) => p,
        Err(e) => return Err(e),
    };
    let (track_id, i) = match read_u32(body, i) {
        Ok(p) => p,
        Err(e) => return Err(e),
    };
    let mut j = i;
    let mut base_data_offset: Option<u64> = None;
    if flags & 0x000001 != 0 {
        match read_u64(body, j) {
            Ok((v, k)) => {
                base_data_offset = Some(v);
                j = k;
            },
            Err(e) => return Err(e),
        }
    }
    let mut sample_description_index: Option<u32> = None;
    if flags & 0x000002 != 0 {
        match read_u32(body, j) {
            Ok((v, k)) => {
                sample_description_index = Some(v);
                j = k;
            },
            Err(e) => return Err(e),
        }
    }
    let mut default_sample_duration: Option<u32> = None;
    if flags & 0x000008 != 0 {
        match read_u32(body, j) {
            Ok((v, k)) => {
                default_sample_duration = Some(v);
                j = k;
            },
            Err(e) => return Err(e),
        }
    }
    let mut default_sample_size: Option<u32> = None;
    if flags & 0x000010 != 0 {
        match read_u32(body, j) {
            Ok((v, k)) => {
                default_sample_size = Some(v);
                j = k;
            },
            Err(e) => return Err(e),
        }
    }
    let mut default_sample_flags: Option<u32> = None;
    if flags & 0x000020 != 0 {
        match read_u32(body, j) {
            Ok((v, k)) => {
                default_sample_flags = Some(v);
                j = k;
            },
            Err(e) => return Err(e),
        }
    }
    if j != body.len() {
        return Err(Mp4Error::SizeMismatch);
    }
    let b = BoxTfhd {
        version,
        flags,
        track_id,
        base_data_offset,
        sample_description_index,
        default_sample_duration,
        default_sample_size,
        default_sample_flags,
    };
    proof {
        let s = body@;
        let o1: int = 8 + (if flags & 0x000001 != 0 {
            8int
        } else {
            0
        });
        let o2: int = o1 + (if flags & 0x000002 != 0 {
            4int
        } else {
            0
        });
        let o3: int = o2 + (if flags & 0x000008 != 0 {
            4int
        } else {
            0
        });
        let o4: int = o3 + (if flags & 0x000010 != 0 {
            4int
        } else {
            0
        });
        let o5: int = o4 + (if flags & 0x000020 != 0 {
            4int
        } else {
            0
        });
        assert(spec_opt64(b.base_data_offset) =~= s.subrange(8, o1));
        assert(spec_opt32(b.sample_description_index) =~= s.subrange(o1, o2));
        assert(spec_opt32(b.default_sample_duration) =~= s.subrange(o2, o3));
        assert(spec_opt32(b.default_sample_size) =~= s.subrange(o3, o4));
        assert(spec_opt32(b.default_sample_flags) =~= s.subrange(o4, o5));
        lemma_subrange_glue(s, 0, 4, 8);
        lemma_subrange_glue(s, 0, 8, o1);
        lemma_subrange_glue(s, 0, o1, o2);
        lemma_subrange_glue(s, 0, o2, o3);
        lemma_subrange_glue(s, 0, o3, o4);
        lemma_subrange_glue(s, 0, o4, o5);
        lemma_subrange_all(s);
    }
    Ok(b)
}

pub fn write_tfhd(b: &BoxTfhd, out: &mut Vec<u8>)
    ensures
        final(out)@ == old(out)@ + spec_tfhd_body(*b),
{
    push_u8(out, b.version);
    push_u24(out, b.flags);
    push_u32(out, b.track_id);
    match b.base_data_offset {
        Some(x) => push_u64(out, x),
        None => (),
    }
    match b.sample_description_index {
        Some(x) => push_u32(out, x),
        None => (),
    }
    match b.default_sample_duration {
        Some(x) => push_u32(out, x),
        None => (),
    }
    match b.default_sample_size {
        Some(x) => push_u32(out, x),
        None => (),
    }
    match b.default_sample_flags {
        Some(x) => push_u32(out, x),
        None => (),
    }
    proof {
        assert(out@ =~= old(out)@ + spec_tfhd_body(*b));
    }
}

// ---------------------------------------------------------------------------
// Saiz
// ---------------------------------------------------------------------------

pub open spec fn spec_saiz_body(b: BoxSaiz) -> Seq<u8> {
    seq![b.version] + spec_be24(b.flags) + spec_opt32(b.aux_info_type) + spec_opt32(
        b.aux_info_type_parameter,
    ) + seq![b.default_sample_info_size] + spec_be32(b.sample_count) + spec_opt8(
        b.sample_info_size,
    )
}

/// The aux-info pair is present exactly when flag bit 1 is set; the single
/// size is present exactly when the default size is zero.
pub open spec fn spec_saiz_wf(b: BoxSaiz) -> bool {
    &&& b.flags < 0x1000000
    &&& (b.aux_info_type is Some <==> b.flags & 0x000001 != 0)
    &&& (b.aux_info_type_parameter is Some <==> b.flags & 0x000001 != 0)
    &&& (b.sample_info_size is Some <==> b.default_sample_info_size == 0)
}

/// A body parses exactly when its length matches what its flags and its
/// own `default_sample_info_size` byte call for.
pub open spec fn spec_saiz_ok(body: Seq<u8>) -> Result<(), Mp4Error> {
    if body.len() < 4 {
        Err(Mp4Error::TruncatedInput)
    } else {
        let flags = spec_u24_of(body.subrange(1, 4));
        let p: int = 4 + (if flags & 0x000001 != 0 {
            8int
        } else {
            0
        });
        if body.len() < p + 1 {
            Err(Mp4Error::TruncatedInput)
        } else {
            let dsis = body[p];
            let total: int = p + 5 + (if dsis == 0 {
                1int
            } else {
                0
            });
            if body.len() < total {
                Err(Mp4Error::TruncatedInput)
            } else if body.len() > total {
                Err(Mp4Error::SizeMismatch)
            } else {
                Ok(())
            }
        }
    }
}

pub fn parse_saiz(body: &[u8]) -> (r: Result<BoxSaiz, Mp4Error>)
    ensures
        match r {
            Ok(b) => spec_saiz_ok(body@) is Ok && spec_saiz_wf(b) && spec_saiz_body(b) == body@,
            Err(e) => spec_saiz_ok(body@) == Err::<(), Mp4Error>(e),
        },
{
    let (version, flags, i) = match read_fullbox_header(body, 0) {
        Ok(p) => p,
        Err(e) => return Err(e),
    };
    let mut j = i;
    let mut aux_info_type: Option<u32> = None;
    let mut aux_info_type_parameter: Option<u32> = None;
    if flags & 0x000001 != 0 {
        match read_u32(body, j) {
            Ok((v, k)) => {
                aux_info_type = Some(v);
                j = k;
            },
            Err(e) => return Err(e),
        }
        match read_u32(body, j) {
            Ok((v, k)) => {
                aux_info_type_parameter = Some(v);
                j = k;
            },
            Err(e) => return Err(e),
        }
    }
    let (default_sample_info_size, j2) = match read_u8(body, j) {
        Ok(p) => p,
        Err(e) => return Err(e),
    };
    let (sample_count, j3) = match read_u32(body, j2) {
        Ok(p) => p,
        Err(e) => return Err(e),
    };
    let mut j4 = j3;
    let mut sample_info_size: Option<u8> = None;
    if default_sample_info_size == 0 {
        match read_u8(body, j4) {
            Ok((v, k)) => {
                sample_info_size = Some(v);
                j4 = k;
            },
            Err(e) => return Err(e),
        }
    }
    if j4 != body.len() {
        return Err(Mp4Error::SizeMismatch);
    }
    let b = BoxSaiz {
        version,
        flags,
        aux_info_type,
        aux_info_type_parameter,
        default_sample_info_size,
        sample_count,
        sample_info_size,
    };
    proof {
        let s = body@;
        let w: int = if flags & 0x000001 != 0 {
            4int
        } else {
            0
        };
        let oa: int = 4 + w;
        let ob: int = 4 + 2 * w;
        assert(spec_opt32(b.aux_info_type) =~= s.subrange(4, oa));
        assert(spec_opt32(b.aux_info_type_parameter) =~= s.subrange(oa, ob));
        assert(seq![b.default_sample_info_size] =~= s.subrange(ob, ob + 1));
        let oc: int = ob + 5;
        let od: int = oc + (if default_sample_info_size == 0 {
            1int
        } else {
            0
        });
        assert(spec_opt8(b.sample_info_size) =~= s.subrange(oc, od));
        lemma_subrange_glue(s, 0, 4, oa);
        lemma_subrange_glue(s, 0, oa, ob);
        lemma_subrange_glue(s, 0, ob, ob + 1);
        lemma_subrange_glue(s, 0, ob + 1, oc);
        lemma_subrange_glue(s, 0, oc, od);
        lemma_subrange_all(s);
    }
    Ok(b)
}

pub fn write_saiz(b: &BoxSaiz, out: &mut Vec<u8>)
    ensures
        final(out)@ == old(out)@ + spec_saiz_body(*b),
{
    push_u8(out, b.version);
    push_u24(out, b.flags);
    match b.aux_info_type {
        Some(x) => push_u32(out, x),
        None => (),
    }
    match b.aux_info_type_parameter {
        Some(x) => push_u32(out, x),
        None => (),
    }
    push_u8(out, b.default_sample_info_size);
    push_u32(out, b.sample_count);
    match b.sample_info_size {
        Some(x) => push_u8(out, x),
        None => (),
    }
    proof {
        assert(out@ =~= old(out)@ + spec_saiz_body(*b));
    }
}

} // verus!
