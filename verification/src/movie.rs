//! Movie- and track-header kinds: full boxes whose time fields widen from
//! 32 to 64 bits when the box version is 1, alongside reserved byte runs
//! and fixed transform matrices.

use vstd::prelude::*;

use crate::errors::Mp4Error;
use crate::types::{BoxMdhd, BoxMvhd, BoxTkhd};
use crate::wire::{
    concat_bytes, lemma_subrange_all, lemma_subrange_glue, push_bytes, push_either_64, push_i16,
    push_i32, push_n_i32, push_n_u32, push_u16, push_u24, push_u32, push_u8, read_bytes,
    read_either_64, read_fullbox_header, read_i16, read_i32, read_n_i32, read_n_u32, read_u16,
    read_u32, spec_be16, spec_be24, spec_be32, spec_be_i16, spec_be_i32, spec_e64,
};

verus! {

// ---------------------------------------------------------------------------
// Mvhd
// ---------------------------------------------------------------------------

pub open spec fn spec_mvhd_body(b: BoxMvhd) -> Seq<u8> {
    seq![b.version] + spec_be24(b.flags) + spec_e64(b.creation_time) + spec_e64(
        b.modification_time,
    ) + spec_be32(b.timescale) + spec_e64(b.duration) + spec_be_i32(b.rate) + spec_be_i16(b.volume)
        + b.reserved@ + concat_bytes(b.matrix@, |x: i32| spec_be_i32(x)) + concat_bytes(
        b.pre_defined@,
        |x: u32| spec_be32(x),
    ) + spec_be32(b.next_track_id)
}

/// The three time fields are wide exactly when the version is 1; the
/// reserved run, matrix and pre-defined table have their fixed extents.
pub open spec fn spec_mvhd_wf(b: BoxMvhd) -> bool {
    &&& b.flags < 0x1000000
    &&& (b.creation_time is A <==> b.version == 1)
    &&& (b.modification_time is A <==> b.version == 1)
    &&& (b.duration is A <==> b.version == 1)
    &&& b.reserved@.len() == 10
    &&& b.matrix@.len() == 9
    &&& b.pre_defined@.len() == 6
}

/// Body bytes an `Mvhd` of this version occupies: 112 when the version
/// is 1, 100 otherwise — the three time fields differ by 4 bytes each.
pub open spec fn spec_mvhd_len(version: u8) -> int {
    if version == 1 {
        112
    } else {
        100
    }
}

/// A body parses exactly when its length matches what its own version
/// byte calls for.
pub open spec fn spec_mvhd_ok(body: Seq<u8>) -> Result<(), Mp4Error> {
    if body.len() < 4 {
        Err(Mp4Error::TruncatedInput)
    } else if body.len() < spec_mvhd_len(body[0]) {
        Err(Mp4Error::TruncatedInput)
    } else if body.len() > spec_mvhd_len(body[0]) {
        Err(Mp4Error::SizeMismatch)
    } else {
        Ok(())
    }
}

pub fn parse_mvhd(body: &[u8]) -> (r: Result<BoxMvhd, Mp4Error>)
    ensures
        match r {
            Ok(b) => spec_mvhd_ok(body@) is Ok && spec_mvhd_wf(b) && spec_mvhd_body(b) == body@,
            Err(e) => spec_mvhd_ok(body@) == Err::<(), Mp4Error>(e),
        },
{
    let (version, flags, i) = match read_fullbox_header(body, 0) {
        Ok(p) => p,
        Err(e) => return Err(e),
    };
    let wide = version == 1;
    let (creation_time, i) = match read_either_64(body, i, wide) {
        Ok(p) => p,
        Err(e) => return Err(e),
    };
    let (modification_time, i) = match read_either_64(body, i, wide) {
        Ok(p) => p,
        Err(e) => return Err(e),
    };
    let (timescale, i) = match read_u32(body, i) {
        Ok(p) => p,
        Err(e) => return Err(e),
    };
    let (duration, i) = match read_either_64(body, i, wide) {
        Ok(p) => p,
        Err(e) => return Err(e),
    };
    let (rate, i) = match read_i32(body, i) {
        Ok(p) => p,
        Err(e) => return Err(e),
    };
    let (volume, i) = match read_i16(body, i) {
        Ok(p) => p,
        Err(e) => return Err(e),
    };
    let (reserved, i) = match read_bytes(body, i, 10) {
        Ok(p) => p,
        Err(e) => return Err(e),
    };
    let (matrix, i) = match read_n_i32(body, i, 9) {
        Ok(p) => p,
        Err(e) => return Err(e),
    };
    let (pre_defined, i) = match read_n_u32(body, i, 6) {
        Ok(p) => p,
        Err(e) => return Err(e),
    };
    let (next_track_id, i) = match read_u32(body, i) {
        Ok(p) => p,
        Err(e) => return Err(e),
    };
    if i != body.len() {
        return Err(Mp4Error::SizeMismatch);
    }
    let b = BoxMvhd {
        version,
        flags,
        creation_time,
        modification_time,
        timescale,
        duration,
        rate,
        volume,
        reserved,
        matrix,
        pre_defined,
        next_track_id,
    };
    proof {
        let s = body@;
        let w: int = if version == 1 {
            8
        } else {
            4
        };
        let o1: int = 4 + w;
        let o2: int = o1 + w;
        let o3: int = o2 + 4;
        let o4: int = o3 + w;
        let o5: int = o4 + 4;
        let o6: int = o5 + 2;
        let o7: int = o6 + 10;
        let o8: int = o7 + 36;
        let o9: int = o8 + 24;
        let o10: int = o9 + 4;
        lemma_subrange_glue(s, 0, 4, o1);
        lemma_subrange_glue(s, 0, o1, o2);
        lemma_subrange_glue(s, 0, o2, o3);
        lemma_subrange_glue(s, 0, o3, o4);
        lemma_subrange_glue(s, 0, o4, o5);
        lemma_subrange_glue(s, 0, o5, o6);
        lemma_subrange_glue(s, 0, o6, o7);
        lemma_subrange_glue(s, 0, o7, o8);
        lemma_subrange_glue(s, 0, o8, o9);
        lemma_subrange_glue(s, 0, o9, o10);
        lemma_subrange_all(s);
    }
    Ok(b)
}

pub fn write_mvhd(b: &BoxMvhd, out: &mut Vec<u8>)
    ensures
        final(out)@ == old(out)@ + spec_mvhd_body(*b),
{
    push_u8(out, b.version);
    push_u24(out, b.flags);
    push_either_64(out, &b.creation_time);
    push_either_64(out, &b.modification_time);
    push_u32(out, b.timescale);
    push_either_64(out, &b.duration);
    push_i32(out, b.rate);
    push_i16(out, b.volume);
    push_bytes(out, &b.reserved);
    push_n_i32(out, &b.matrix);
    push_n_u32(out, &b.pre_defined);
    push_u32(out, b.next_track_id);
    proof {
        assert(out@ =~= old(out)@ + spec_mvhd_body(*b));
    }
}

// ---------------------------------------------------------------------------
// Tkhd
// ---------------------------------------------------------------------------

pub open spec fn spec_tkhd_body(b: BoxTkhd) -> Seq<u8> {
    seq![b.version] + spec_be24(b.flags) + spec_e64(b.creation_time) + spec_e64(
        b.modification_time,
    ) + spec_be32(b.track_id) + b.reserved@ + spec_e64(b.duration) + b.reserved1@ + spec_be_i16(
        b.layer,
    ) + spec_be_i16(b.alternate_group) + spec_be_i16(b.volume) + b.reserved2@ + concat_bytes(
        b.matrix@,
        |x: i32| spec_be_i32(x),
    ) + spec_be32(b.width) + spec_be32(b.height)
}

/// The three time fields are wide exactly when the version is 1; the
/// reserved runs and the matrix have their fixed extents.
pub open spec fn spec_tkhd_wf(b: BoxTkhd) -> bool {
    &&& b.flags < 0x1000000
    &&& (b.creation_time is A <==> b.version == 1)
    &&& (b.modification_time is A <==> b.version == 1)
    &&& (b.duration is A <==> b.version == 1)
    &&& b.reserved@.len() == 4
    &&& b.reserved1@.len() == 8
    &&& b.reserved2@.len() == 2
    &&& b.matrix@.len() == 9
}

/// Body bytes a `Tkhd` of this version occupies: 96 when the version is
/// 1, 84 otherwise.
pub open spec fn spec_tkhd_len(version: u8) -> int {
    if version == 1 {
        96
    } else {
        84
    }
}

/// A body parses exactly when its length matches what its own version
/// byte calls for.
pub open spec fn spec_tkhd_ok(body: Seq<u8>) -> Result<(), Mp4Error> {
    if body.len() < 4 {
        Err(Mp4Error::TruncatedInput)
    } else if body.len() < spec_tkhd_len(body[0]) {
        Err(Mp4Error::TruncatedInput)
    } else if body.len() > spec_tkhd_len(body[0]) {
        Err(Mp4Error::SizeMismatch)
    } else {
        Ok(())
    }
}

pub fn parse_tkhd(body: &[u8]) -> (r: Result<BoxTkhd, Mp4Error>)
    ensures
        match r {
            Ok(b) => spec_tkhd_ok(body@) is Ok && spec_tkhd_wf(b) && spec_tkhd_body(b) == body@,
            Err(e) => spec_tkhd_ok(body@) == Err::<(), Mp4Error>(e),
        },
{
    let (version, flags, i) = match read_fullbox_header(body, 0) {
        Ok(p) => p,
        Err(e) => return Err(e),
    };
    let wide = version == 1;
    let (creation_time, i) = match read_either_64(body, i, wide) {
        Ok(p) => p,
        Err(e) => return Err(e),
    };
    let (modification_time, i) = match read_either_64(body, i, wide) {
        Ok(p) => p,
        Err(e) => return Err(e),
    };
    let (track_id, i) = match read_u32(body, i) {
        Ok(p) => p,
        Err(e) => return Err(e),
    };
    let (reserved, i) = match read_bytes(body, i, 4) {
        Ok(p) => p,
        Err(e) => return Err(e),
    };
    let (duration, i) = match read_either_64(body, i, wide) {
        Ok(p) => p,
        Err(e) => return Err(e),
    };
    let (reserved1, i) = match read_bytes(body, i, 8) {
        Ok(p) => p,
        Err(e) => return Err(e),
    };
    let (layer, i) = match read_i16(body, i) {
        Ok(p) => p,
        Err(e) => return Err(e),
    };
    let (alternate_group, i) = match read_i16(body, i) {
        Ok(p) => p,
        Err(e) => return Err(e),
    };
    let (volume, i) = match read_i16(body, i) {
        Ok(p) => p,
        Err(e) => return Err(e),
    };
    let (reserved2, i) = match read_bytes(body, i, 2) {
        Ok(p) => p,
        Err(e) => return Err(e),
    };
    let (matrix, i) = match read_n_i32(body, i, 9) {
        Ok(p) => p,
        Err(e) => return Err(e),
    };
    let (width, i) = match read_u32(body, i) {
        Ok(p) => p,
        Err(e) => return Err(e),
    };
    let (height, i) = match read_u32(body, i) {
        Ok(p) => p,
        Err(e) => return Err(e),
    };
    if i != body.len() {
        return Err(Mp4Error::SizeMismatch);
    }
    let b = BoxTkhd {
        version,
        flags,
        creation_time,
        modification_time,
        track_id,
        reserved,
        duration,
        reserved1,
        layer,
        alternate_group,
        volume,
        reserved2,
        matrix,
        width,
        height,
    };
    proof {
        let s = body@;
        let w: int = if version == 1 {
            8
        } else {
            4
        };
        let o1: int = 4 + w;
        let o2: int = o1 + w;
        let o3: int = o2 + 4;
        let o4: int = o3 + 4;
        let o5: int = o4 + w;
        let o6: int = o5 + 8;
        let o7: int = o6 + 2;
        let o8: int = o7 + 2;
        let o9: int = o8 + 2;
        let o10: int = o9 + 2;
        let o11: int = o10 + 36;
        let o12: int = o11 + 4;
        let o13: int = o12 + 4;
        lemma_subrange_glue(s, 0, 4, o1);
        lemma_subrange_glue(s, 0, o1, o2);
        lemma_subrange_glue(s, 0, o2, o3);
        lemma_subrange_glue(s, 0, o3, o4);
        lemma_subrange_glue(s, 0, o4, o5);
        lemma_subrange_glue(s, 0, o5, o6);
        lemma_subrange_glue(s, 0, o6, o7);
        lemma_subrange_glue(s, 0, o7, o8);
        lemma_subrange_glue(s, 0, o8, o9);
        lemma_subrange_glue(s, 0, o9, o10);
        lemma_subrange_glue(s, 0, o10, o11);
        lemma_subrange_glue(s, 0, o11, o12);
        lemma_subrange_glue(s, 0, o12, o13);
        lemma_subrange_all(s);
    }
    Ok(b)
}

pub fn write_tkhd(b: &BoxTkhd, out: &mut Vec<u8>)
    ensures
        final(out)@ == old(out)@ + spec_tkhd_body(*b),
{
    push_u8(out, b.version);
    push_u24(out, b.flags);
    push_either_64(out, &b.creation_time);
    push_either_64(out, &b.modification_time);
    push_u32(out, b.track_id);
    push_bytes(out, &b.reserved);
    push_either_64(out, &b.duration);
    push_bytes(out, &b.reserved1);
    push_i16(out, b.layer);
    push_i16(out, b.alternate_group);
    push_i16(out, b.volume);
    push_bytes(out, &b.reserved2);
    push_n_i32(out, &b.matrix);
    push_u32(out, b.width);
    push_u32(out, b.height);
    proof {
        assert(out@ =~= old(out)@ + spec_tkhd_body(*b));
    }
}

// ---------------------------------------------------------------------------
// Mdhd
// ---------------------------------------------------------------------------

pub open spec fn spec_mdhd_body(b: BoxMdhd) -> Seq<u8> {
    seq![b.version] + spec_be24(b.flags) + spec_e64(b.creation_time) + spec_e64(
        b.modification_time,
    ) + spec_be32(b.timescale) + spec_e64(b.duration) + spec_be16(b.language) + b.reserved1@
}

/// The three time fields are wide exactly when the version is 1; the
/// reserved run is two bytes.
pub open spec fn spec_mdhd_wf(b: BoxMdhd) -> bool {
    &&& b.flags < 0x1000000
    &&& (b.creation_time is A <==> b.version == 1)
    &&& (b.modification_time is A <==> b.version == 1)
    &&& (b.duration is A <==> b.version == 1)
    &&& b.reserved1@.len() == 2
}

/// Body bytes an `Mdhd` of this version occupies: 36 when the version is
/// 1, 24 otherwise.
pub open spec fn spec_mdhd_len(version: u8) -> int {
    if version == 1 {
        36
    } else {
        24
    }
}

/// A body parses exactly when its length matches what its own version
/// byte calls for.
pub open spec fn spec_mdhd_ok(body: Seq<u8>) -> Result<(), Mp4Error> {
    if body.len() < 4 {
        Err(Mp4Error::TruncatedInput)
    } else if body.len() < spec_mdhd_len(body[0]) {
        Err(Mp4Error::TruncatedInput)
    } else if body.len() > spec_mdhd_len(body[0]) {
        Err(Mp4Error::SizeMismatch)
    } else {
        Ok(())
    }
}

pub fn parse_mdhd(body: &[u8]) -> (r: Result<BoxMdhd, Mp4Error>)
    ensures
        match r {
            Ok(b) => spec_mdhd_ok(body@) is Ok && spec_mdhd_wf(b) && spec_mdhd_body(b) == body@,
            Err(e) => spec_mdhd_ok(body@) == Err::<(), Mp4Error>(e),
        },
{
    let (version, flags, i) = match read_fullbox_header(body, 0) {
        Ok(p) => p,
        Err(e) => return Err(e),
    };
    let wide = version == 1;
    let (creation_time, i) = match read_either_64(body, i, wide) {
        Ok(p) => p,
        Err(e) => return Err(e),
    };
    let (modification_time, i) = match read_either_64(body, i, wide) {
        Ok(p) => p,
        Err(e) => return Err(e),
    };
    let (timescale, i) = match read_u32(body, i) {
        Ok(p) => p,
        Err(e) => return Err(e),
    };
    let (duration, i) = match read_either_64(body, i, wide) {
        Ok(p) => p,
        Err(e) => return Err(e),
    };
    let (language, i) = match read_u16(body, i) {
        Ok(p) => p,
        Err(e) => return Err(e),
    };
    let (reserved1, i) = match read_bytes(body, i, 2) {
        Ok(p) => p,
        Err(e) => return Err(e),
    };
    if i != body.len() {
        return Err(Mp4Error::SizeMismatch);
    }
    let b = BoxMdhd {
        version,
        flags,
        creation_time,
        modification_time,
        timescale,
        duration,
        language,
        reserved1,
    };
    proof {
        let s = body@;
        let w: int = if version == 1 {
            8
        } else {
            4
        };
        let o1: int = 4 + w;
        let o2: int = o1 + w;
        let o3: int = o2 + 4;
        let o4: int = o3 + w;
        let o5: int = o4 + 2;
        let o6: int = o5 + 2;
        lemma_subrange_glue(s, 0, 4, o1);
        lemma_subrange_glue(s, 0, o1, o2);
        lemma_subrange_glue(s, 0, o2, o3);
        lemma_subrange_glue(s, 0, o3, o4);
        lemma_subrange_glue(s, 0, o4, o5);
        lemma_subrange_glue(s, 0, o5, o6);
        lemma_subrange_all(s);
    }
    Ok(b)
}

pub fn write_mdhd(b: &BoxMdhd, out: &mut Vec<u8>)
    ensures
        final(out)@ == old(out)@ + spec_mdhd_body(*b),
{
    push_u8(out, b.version);
    push_u24(out, b.flags);
    push_either_64(out, &b.creation_time);
    push_either_64(out, &b.modification_time);
    push_u32(out, b.timescale);
    push_either_64(out, &b.duration);
    push_u16(out, b.language);
    push_bytes(out, &b.reserved1);
    proof {
        assert(out@ =~= old(out)@ + spec_mdhd_body(*b));
    }
}

} // verus!
