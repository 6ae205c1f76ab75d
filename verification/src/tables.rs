//! Box kinds whose bodies hold a count followed by that many fixed-width
//! entries, and the one plain box with a trailing array (`Ftyp`).
//!
//! Entry tables serialize as the concatenation of their entries'
//! encodings; a parse consumes exactly `count` entries and must land on
//! the end of the body.

use vstd::prelude::*;

use crate::errors::Mp4Error;
use crate::types::{
    BoxFtyp, BoxSaio, BoxStco, BoxStsc, BoxStsz, BoxStts, SaioEntry, StcoEntry, StscEntry,
    StszEntry, SttsEntry,
};
use crate::wire::{
    concat_bytes, lemma_concat_bytes_push, lemma_concat_bytes_take_push, lemma_subrange_all,
    lemma_subrange_glue, push_bytes, push_either_64, push_u24, push_u32, push_u8,
    read_bytes, read_either_64, read_fullbox_header, read_u32, spec_be24, spec_be32, spec_e64,
    spec_opt32, spec_u24_of, spec_u32_of,
};

verus! {

// ---------------------------------------------------------------------------
// Stts
// ---------------------------------------------------------------------------

pub open spec fn spec_stts_entry(e: SttsEntry) -> Seq<u8> {
    spec_be32(e.sample_count) + spec_be32(e.sample_delta)
}

pub open spec fn spec_stts_entries(s: Seq<SttsEntry>) -> Seq<u8> {
    concat_bytes(s, |e: SttsEntry| spec_stts_entry(e))
}

pub open spec fn spec_stts_body(b: BoxStts) -> Seq<u8> {
    seq![b.version] + spec_be24(b.flags) + spec_be32(b.entry_count) + spec_stts_entries(b.entries@)
}

pub open spec fn spec_stts_wf(b: BoxStts) -> bool {
    &&& b.flags < 0x1000000
    &&& b.entries@.len() == b.entry_count as int
}

/// A body parses exactly when it holds the header, a count, and that many
/// 8-byte entries, nothing more.
pub open spec fn spec_stts_ok(body: Seq<u8>) -> Result<(), Mp4Error> {
    if body.len() < 8 {
        Err(Mp4Error::TruncatedInput)
    } else {
        let n = spec_u32_of(body.subrange(4, 8));
        if body.len() < 8 + 8 * n {
            Err(Mp4Error::TruncatedInput)
        } else if body.len() > 8 + 8 * n {
            Err(Mp4Error::SizeMismatch)
        } else {
            Ok(())
        }
    }
}

pub fn parse_stts(body: &[u8]) -> (r: Result<BoxStts, Mp4Error>)
    ensures
        match r {
            Ok(b) => spec_stts_ok(body@) is Ok && spec_stts_wf(b) && spec_stts_body(b) == body@,
            Err(e) => spec_stts_ok(body@) == Err::<(), Mp4Error>(e),
        },
{
    let (version, flags, i) = match read_fullbox_header(body, 0) {
        Ok(p) => p,
        Err(e) => return Err(e),
    };
    let (entry_count, i) = match read_u32(body, i) {
        Ok(p) => p,
        Err(e) => return Err(e),
    };
    let n = entry_count as usize;
    let mut entries: Vec<SttsEntry> = Vec::new();
    let mut j = i;
    let mut k: usize = 0;
    while k < n
        invariant
            k <= n,
            body@.len() >= 8,
            entry_count == spec_u32_of(body@.subrange(4, 8)),
            n as int == entry_count as int,
            j == 8 + 8 * k,
            j <= body@.len(),
            entries@.len() == k,
            spec_stts_entries(entries@) == body@.subrange(8, j as int),
        decreases n - k,
    {
        let (sample_count, j1) = match read_u32(body, j) {
            Ok(p) => p,
            Err(e) => {
                proof {
                    assert(8 + 8 * n >= j + 8) by (nonlinear_arith)
                        requires
                            j == 8 + 8 * k,
                            k < n,
                    ;
                }
                return Err(e);
            },
        };
        let (sample_delta, j2) = match read_u32(body, j1) {
            Ok(p) => p,
            Err(e) => {
                proof {
                    assert(8 + 8 * n >= j + 8) by (nonlinear_arith)
                        requires
                            j == 8 + 8 * k,
                            k < n,
                    ;
                }
                return Err(e);
            },
        };
        let entry = SttsEntry { sample_count, sample_delta };
        proof {
            let f = |e: SttsEntry| spec_stts_entry(e);
            assert(f(entry) == spec_stts_entry(entry));
            lemma_concat_bytes_push(entries@, f, entry);
            lemma_subrange_glue(body@, 8, j as int, j as int + 8);
            lemma_subrange_glue(body@, j as int, j as int + 4, j as int + 8);
            assert(spec_stts_entries(entries@.push(entry)) == body@.subrange(8, j as int + 8));
        }
        entries.push(entry);
        j = j2;
        k = k + 1;
    }
    if j != body.len() {
        proof {
            assert(body@.len() > 8 + 8 * (entry_count as int)) by (nonlinear_arith)
                requires
                    j == 8 + 8 * (entry_count as int),
                    body@.len() > j,
            ;
        }
        return Err(Mp4Error::SizeMismatch);
    }
    let b = BoxStts { version, flags, entry_count, entries };
    proof {
        lemma_subrange_glue(body@, 0, 4, 8);
        lemma_subrange_glue(body@, 0, 8, j as int);
        lemma_subrange_all(body@);
    }
    Ok(b)
}

pub fn write_stts(b: &BoxStts, out: &mut Vec<u8>)
    ensures
        final(out)@ == old(out)@ + spec_stts_body(*b),
{
    push_u8(out, b.version);
    push_u24(out, b.flags);
    push_u32(out, b.entry_count);
    let ghost base = out@;
    let n = b.entries.len();
    let mut k: usize = 0;
    while k < n
        invariant
            k <= n,
            n == b.entries@.len(),
            out@ == base + spec_stts_entries(b.entries@.take(k as int)),
        decreases n - k,
    {
        let e = &b.entries[k];
        proof {
            let f = |e: SttsEntry| spec_stts_entry(e);
            assert(f(b.entries@[k as int]) == spec_stts_entry(b.entries@[k as int]));
            lemma_concat_bytes_take_push(b.entries@, f, k as int);
        }
        push_u32(out, e.sample_count);
        push_u32(out, e.sample_delta);
        proof {
            assert(out@ =~= base + spec_stts_entries(b.entries@.take(k as int + 1)));
        }
        k = k + 1;
    }
    proof {
        assert(b.entries@.take(n as int) =~= b.entries@);
        assert(out@ =~= old(out)@ + spec_stts_body(*b));
    }
}

// ---------------------------------------------------------------------------
// Stsc
// ---------------------------------------------------------------------------

pub open spec fn spec_stsc_entry(e: StscEntry) -> Seq<u8> {
    spec_be32(e.first_chunk) + spec_be32(e.samples_per_chunk) + spec_be32(
        e.sample_description_index,
    )
}

pub open spec fn spec_stsc_entries(s: Seq<StscEntry>) -> Seq<u8> {
    concat_bytes(s, |e: StscEntry| spec_stsc_entry(e))
}

pub open spec fn spec_stsc_body(b: BoxStsc) -> Seq<u8> {
    seq![b.version] + spec_be24(b.flags) + spec_be32(b.entry_count) + spec_stsc_entries(b.entries@)
}

pub open spec fn spec_stsc_wf(b: BoxStsc) -> bool {
    &&& b.flags < 0x1000000
    &&& b.entries@.len() == b.entry_count as int
}

/// A body parses exactly when it holds the header, a count, and that many
/// 12-byte entries, nothing more.
pub open spec fn spec_stsc_ok(body: Seq<u8>) -> Result<(), Mp4Error> {
    if body.len() < 8 {
        Err(Mp4Error::TruncatedInput)
    } else {
        let n = spec_u32_of(body.subrange(4, 8));
        if body.len() < 8 + 12 * n {
            Err(Mp4Error::TruncatedInput)
        } else if body.len() > 8 + 12 * n {
            Err(Mp4Error::SizeMismatch)
        } else {
            Ok(())
        }
    }
}

pub fn parse_stsc(body: &[u8]) -> (r: Result<BoxStsc, Mp4Error>)
    ensures
        match r {
            Ok(b) => spec_stsc_ok(body@) is Ok && spec_stsc_wf(b) && spec_stsc_body(b) == body@,
            Err(e) => spec_stsc_ok(body@) == Err::<(), Mp4Error>(e),
        },
{
    let (version, flags, i) = match read_fullbox_header(body, 0) {
        Ok(p) => p,
        Err(e) => return Err(e),
    };
    let (entry_count, i) = match read_u32(body, i) {
        Ok(p) => p,
        Err(e) => return Err(e),
    };
    let n = entry_count as usize;
    let mut entries: Vec<StscEntry> = Vec::new();
    let mut j = i;
    let mut k: usize = 0;
    while k < n
        invariant
            k <= n,
            body@.len() >= 8,
            entry_count == spec_u32_of(body@.subrange(4, 8)),
            n as int == entry_count as int,
            j == 8 + 12 * k,
            j <= body@.len(),
            entries@.len() == k,
            spec_stsc_entries(entries@) == body@.subrange(8, j as int),
        decreases n - k,
    {
        proof {
            assert(8 + 12 * n >= j + 12) by (nonlinear_arith)
                requires
                    j == 8 + 12 * k,
                    k < n,
            ;
        }
        let (first_chunk, j1) = match read_u32(body, j) {
            Ok(p) => p,
            Err(e) => return Err(e),
        };
        let (samples_per_chunk, j2) = match read_u32(body, j1) {
            Ok(p) => p,
            Err(e) => return Err(e),
        };
        let (sample_description_index, j3) = match read_u32(body, j2) {
            Ok(p) => p,
            Err(e) => return Err(e),
        };
        let entry = StscEntry { first_chunk, samples_per_chunk, sample_description_index };
        proof {
            let f = |e: StscEntry| spec_stsc_entry(e);
            assert(f(entry) == spec_stsc_entry(entry));
            lemma_concat_bytes_push(entries@, f, entry);
            lemma_subrange_glue(body@, 8, j as int, j as int + 12);
            lemma_subrange_glue(body@, j as int, j as int + 4, j as int + 12);
            lemma_subrange_glue(body@, j as int + 4, j as int + 8, j as int + 12);
            assert(spec_stsc_entry(entry) =~= body@.subrange(j as int, j as int + 12));
            assert(spec_stsc_entries(entries@.push(entry)) == body@.subrange(8, j as int + 12));
        }
        entries.push(entry);
        j = j3;
        k = k + 1;
    }
    if j != body.len() {
        proof {
            assert(body@.len() > 8 + 12 * (entry_count as int)) by (nonlinear_arith)
                requires
                    j == 8 + 12 * (entry_count as int),
                    body@.len() > j,
            ;
        }
        return Err(Mp4Error::SizeMismatch);
    }
    let b = BoxStsc { version, flags, entry_count, entries };
    proof {
        lemma_subrange_glue(body@, 0, 4, 8);
        lemma_subrange_glue(body@, 0, 8, j as int);
        lemma_subrange_all(body@);
    }
    Ok(b)
}

pub fn write_stsc(b: &BoxStsc, out: &mut Vec<u8>)
    ensures
        final(out)@ == old(out)@ + spec_stsc_body(*b),
{
    push_u8(out, b.version);
    push_u24(out, b.flags);
    push_u32(out, b.entry_count);
    let ghost base = out@;
    let n = b.entries.len();
    let mut k: usize = 0;
    while k < n
        invariant
            k <= n,
            n == b.entries@.len(),
            out@ == base + spec_stsc_entries(b.entries@.take(k as int)),
        decreases n - k,
    {
        let e = &b.entries[k];
        proof {
            let f = |e: StscEntry| spec_stsc_entry(e);
            assert(f(b.entries@[k as int]) == spec_stsc_entry(b.entries@[k as int]));
            lemma_concat_bytes_take_push(b.entries@, f, k as int);
        }
        push_u32(out, e.first_chunk);
        push_u32(out, e.samples_per_chunk);
        push_u32(out, e.sample_description_index);
        proof {
            assert(out@ =~= base + spec_stsc_entries(b.entries@.take(k as int + 1)));
        }
        k = k + 1;
    }
    proof {
        assert(b.entries@.take(n as int) =~= b.entries@);
        assert(out@ =~= old(out)@ + spec_stsc_body(*b));
    }
}

// ---------------------------------------------------------------------------
// Stco
// ---------------------------------------------------------------------------

pub open spec fn spec_stco_entry(e: StcoEntry) -> Seq<u8> {
    spec_be32(e.offset)
}

pub open spec fn spec_stco_entries(s: Seq<StcoEntry>) -> Seq<u8> {
    concat_bytes(s, |e: StcoEntry| spec_stco_entry(e))
}

pub open spec fn spec_stco_body(b: BoxStco) -> Seq<u8> {
    seq![b.version] + spec_be24(b.flags) + spec_be32(b.entry_count) + spec_stco_entries(
        b.chunk_offset@,
    )
}

pub open spec fn spec_stco_wf(b: BoxStco) -> bool {
    &&& b.flags < 0x1000000
    &&& b.chunk_offset@.len() == b.entry_count as int
}

/// A body parses exactly when it holds the header, a count, and that many
/// 4-byte offsets, nothing more.
pub open spec fn spec_stco_ok(body: Seq<u8>) -> Result<(), Mp4Error> {
    if body.len() < 8 {
        Err(Mp4Error::TruncatedInput)
    } else {
        let n = spec_u32_of(body.subrange(4, 8));
        if body.len() < 8 + 4 * n {
            Err(Mp4Error::TruncatedInput)
        } else if body.len() > 8 + 4 * n {
            Err(Mp4Error::SizeMismatch)
        } else {
            Ok(())
        }
    }
}

pub fn parse_stco(body: &[u8]) -> (r: Result<BoxStco, Mp4Error>)
    ensures
        match r {
            Ok(b) => spec_stco_ok(body@) is Ok && spec_stco_wf(b) && spec_stco_body(b) == body@,
            Err(e) => spec_stco_ok(body@) == Err::<(), Mp4Error>(e),
        },
{
    let (version, flags, i) = match read_fullbox_header(body, 0) {
        Ok(p) => p,
        Err(e) => return Err(e),
    };
    let (entry_count, i) = match read_u32(body, i) {
        Ok(p) => p,
        Err(e) => return Err(e),
    };
    let n = entry_count as usize;
    let mut chunk_offset: Vec<StcoEntry> = Vec::new();
    let mut j = i;
    let mut k: usize = 0;
    while k < n
        invariant
            k <= n,
            body@.len() >= 8,
            entry_count == spec_u32_of(body@.subrange(4, 8)),
            n as int == entry_count as int,
            j == 8 + 4 * k,
            j <= body@.len(),
            chunk_offset@.len() == k,
            spec_stco_entries(chunk_offset@) == body@.subrange(8, j as int),
        decreases n - k,
    {
        proof {
            assert(8 + 4 * n >= j + 4) by (nonlinear_arith)
                requires
                    j == 8 + 4 * k,
                    k < n,
            ;
        }
        let (offset, j1) = match read_u32(body, j) {
            Ok(p) => p,
            Err(e) => return Err(e),
        };
        let entry = StcoEntry { offset };
        proof {
            let f = |e: StcoEntry| spec_stco_entry(e);
            assert(f(entry) == spec_stco_entry(entry));
            lemma_concat_bytes_push(chunk_offset@, f, entry);
            lemma_subrange_glue(body@, 8, j as int, j as int + 4);
            assert(spec_stco_entries(chunk_offset@.push(entry)) == body@.subrange(
                8,
                j as int + 4,
            ));
        }
        chunk_offset.push(entry);
        j = j1;
        k = k + 1;
    }
    if j != body.len() {
        proof {
            assert(body@.len() > 8 + 4 * (entry_count as int)) by (nonlinear_arith)
                requires
                    j == 8 + 4 * (entry_count as int),
                    body@.len() > j,
            ;
        }
        return Err(Mp4Error::SizeMismatch);
    }
    let b = BoxStco { version, flags, entry_count, chunk_offset };
    proof {
        lemma_subrange_glue(body@, 0, 4, 8);
        lemma_subrange_glue(body@, 0, 8, j as int);
        lemma_subrange_all(body@);
    }
    Ok(b)
}

pub fn write_stco(b: &BoxStco, out: &mut Vec<u8>)
    ensures
        final(out)@ == old(out)@ + spec_stco_body(*b),
{
    push_u8(out, b.version);
    push_u24(out, b.flags);
    push_u32(out, b.entry_count);
    let ghost base = out@;
    let n = b.chunk_offset.len();
    let mut k: usize = 0;
    while k < n
        invariant
            k <= n,
            n == b.chunk_offset@.len(),
            out@ == base + spec_stco_entries(b.chunk_offset@.take(k as int)),
        decreases n - k,
    {
        let e = &b.chunk_offset[k];
        proof {
            let f = |e: StcoEntry| spec_stco_entry(e);
            assert(f(b.chunk_offset@[k as int]) == spec_stco_entry(b.chunk_offset@[k as int]));
            lemma_concat_bytes_take_push(b.chunk_offset@, f, k as int);
        }
        push_u32(out, e.offset);
        proof {
            assert(out@ =~= base + spec_stco_entries(b.chunk_offset@.take(k as int + 1)));
        }
        k = k + 1;
    }
    proof {
        assert(b.chunk_offset@.take(n as int) =~= b.chunk_offset@);
        assert(out@ =~= old(out)@ + spec_stco_body(*b));
    }
}

// ---------------------------------------------------------------------------
// Stsz
// ---------------------------------------------------------------------------

pub open spec fn spec_stsz_entry(e: StszEntry) -> Seq<u8> {
    spec_be32(e.size)
}

pub open spec fn spec_stsz_entries(s: Seq<StszEntry>) -> Seq<u8> {
    concat_bytes(s, |e: StszEntry| spec_stsz_entry(e))
}

pub open spec fn spec_stsz_body(b: BoxStsz) -> Seq<u8> {
    seq![b.version] + spec_be24(b.flags) + spec_be32(b.sample_size) + spec_be32(b.sample_count)
        + (match b.entry_size {
        Some(v) => spec_stsz_entries(v@),
        None => Seq::empty(),
    })
}

/// The per-sample table is present exactly when the uniform size is zero,
/// and then holds one entry per sample.
pub open spec fn spec_stsz_wf(b: BoxStsz) -> bool {
    &&& b.flags < 0x1000000
    &&& (b.entry_size is Some <==> b.sample_size == 0)
    &&& (b.entry_size matches Some(v) ==> v@.len() == b.sample_count as int)
}

/// A body parses exactly when it holds the header, the uniform size, the
/// sample count, and — only when the uniform size is zero — one 4-byte
/// entry per sample, nothing more.
pub open spec fn spec_stsz_ok(body: Seq<u8>) -> Result<(), Mp4Error> {
    if body.len() < 12 {
        Err(Mp4Error::TruncatedInput)
    } else {
        let ss = spec_u32_of(body.subrange(4, 8));
        let n = spec_u32_of(body.subrange(8, 12));
        let total: int = 12 + if ss == 0 {
            4 * n as int
        } else {
            0
        };
        if body.len() < total {
            Err(Mp4Error::TruncatedInput)
        } else if body.len() > total {
            Err(Mp4Error::SizeMismatch)
        } else {
            Ok(())
        }
    }
}

pub fn parse_stsz(body: &[u8]) -> (r: Result<BoxStsz, Mp4Error>)
    ensures
        match r {
            Ok(b) => spec_stsz_ok(body@) is Ok && spec_stsz_wf(b) && spec_stsz_body(b) == body@,
            Err(e) => spec_stsz_ok(body@) == Err::<(), Mp4Error>(e),
        },
{
    let (version, flags, i) = match read_fullbox_header(body, 0) {
        Ok(p) => p,
        Err(e) => return Err(e),
    };
    let (sample_size, i) = match read_u32(body, i) {
        Ok(p) => p,
        Err(e) => return Err(e),
    };
    let (sample_count, i) = match read_u32(body, i) {
        Ok(p) => p,
        Err(e) => return Err(e),
    };
    let mut entry_size: Option<Vec<StszEntry>> = None;
    let mut j = i;
    if sample_size == 0 {
        let n = sample_count as usize;
        let mut entries: Vec<StszEntry> = Vec::new();
        let mut k: usize = 0;
        while k < n
            invariant
                k <= n,
                body@.len() >= 12,
                sample_size == spec_u32_of(body@.subrange(4, 8)),
                sample_size == 0,
                sample_count == spec_u32_of(body@.subrange(8, 12)),
                n as int == sample_count as int,
                j == 12 + 4 * k,
                j <= body@.len(),
                entries@.len() == k,
                spec_stsz_entries(entries@) == body@.subrange(12, j as int),
            decreases n - k,
        {
            proof {
                assert(12 + 4 * n >= j + 4) by (nonlinear_arith)
                    requires
                        j == 12 + 4 * k,
                        k < n,
                ;
            }
            let (size, j1) = match read_u32(body, j) {
                Ok(p) => p,
                Err(e) => return Err(e),
            };
            let entry = StszEntry { size };
            proof {
                let f = |e: StszEntry| spec_stsz_entry(e);
                assert(f(entry) == spec_stsz_entry(entry));
                lemma_concat_bytes_push(entries@, f, entry);
                lemma_subrange_glue(body@, 12, j as int, j as int + 4);
                assert(spec_stsz_entries(entries@.push(entry)) == body@.subrange(
                    12,
                    j as int + 4,
                ));
            }
            entries.push(entry);
            j = j1;
            k = k + 1;
        }
        entry_size = Some(entries);
    }
    if j != body.len() {
        proof {
            if sample_size == 0 {
                assert(body@.len() > 12 + 4 * (sample_count as int)) by (nonlinear_arith)
                    requires
                        j == 12 + 4 * (sample_count as int),
                        body@.len() > j,
                ;
            }
        }
        return Err(Mp4Error::SizeMismatch);
    }
    let b = BoxStsz { version, flags, sample_size, sample_count, entry_size };
    proof {
        lemma_subrange_glue(body@, 0, 4, 8);
        lemma_subrange_glue(body@, 0, 8, 12);
        lemma_subrange_glue(body@, 0, 12, j as int);
        lemma_subrange_all(body@);
    }
    Ok(b)
}

pub fn write_stsz(b: &BoxStsz, out: &mut Vec<u8>)
    ensures
        final(out)@ == old(out)@ + spec_stsz_body(*b),
{
    push_u8(out, b.version);
    push_u24(out, b.flags);
    push_u32(out, b.sample_size);
    push_u32(out, b.sample_count);
    let ghost base = out@;
    match &b.entry_size {
        Some(entries) => {
            let n = entries.len();
            let mut k: usize = 0;
            while k < n
                invariant
                    k <= n,
                    b.entry_size matches Some(v) && v@.len() == n && out@ == base
                        + spec_stsz_entries(v@.take(k as int)) && entries@ == v@,
                decreases n - k,
            {
                let e = &entries[k];
                proof {
                    let f = |e: StszEntry| spec_stsz_entry(e);
                    assert(f(entries@[k as int]) == spec_stsz_entry(entries@[k as int]));
                    lemma_concat_bytes_take_push(entries@, f, k as int);
                }
                push_u32(out, e.size);
                proof {
                    assert(out@ =~= base + spec_stsz_entries(entries@.take(k as int + 1)));
                }
                k = k + 1;
            }
            proof {
                assert(entries@.take(n as int) =~= entries@);
                assert(out@ =~= old(out)@ + spec_stsz_body(*b));
            }
        },
        None => {
            proof {
                assert(out@ =~= old(out)@ + spec_stsz_body(*b));
            }
        },
    }
}

// ---------------------------------------------------------------------------
// Saio
// ---------------------------------------------------------------------------

pub open spec fn spec_saio_entry(e: SaioEntry) -> Seq<u8> {
    spec_e64(e.offset)
}

pub open spec fn spec_saio_entries(s: Seq<SaioEntry>) -> Seq<u8> {
    concat_bytes(s, |e: SaioEntry| spec_saio_entry(e))
}

pub open spec fn spec_saio_body(b: BoxSaio) -> Seq<u8> {
    seq![b.version] + spec_be24(b.flags) + spec_opt32(b.aux_info_type) + spec_opt32(
        b.aux_info_type_parameter,
    ) + spec_be32(b.offset_count) + spec_saio_entries(b.offsets@)
}

/// The aux-info pair is present exactly when flag bit 1 is set; every
/// offset is 64-bit exactly when the version is 1.
pub open spec fn spec_saio_wf(b: BoxSaio) -> bool {
    &&& b.flags < 0x1000000
    &&& (b.aux_info_type is Some <==> b.flags & 0x000001 != 0)
    &&& (b.aux_info_type_parameter is Some <==> b.flags & 0x000001 != 0)
    &&& b.offsets@.len() == b.offset_count as int
    &&& forall|m: int|
        0 <= m < b.offsets@.len() ==> ((#[trigger] b.offsets@[m]).offset is A <==> b.version == 1)
}

/// A body parses exactly when it holds the header, the guarded aux-info
/// pair, a count, and that many offsets of the version's width, nothing
/// more.
pub open spec fn spec_saio_ok(body: Seq<u8>) -> Result<(), Mp4Error> {
    if body.len() < 4 {
        Err(Mp4Error::TruncatedInput)
    } else {
        let version = body[0];
        let flags = spec_u24_of(body.subrange(1, 4));
        let p: int = 4 + if flags & 0x000001 != 0 {
            8int
        } else {
            0
        };
        if body.len() < p + 4 {
            Err(Mp4Error::TruncatedInput)
        } else {
            let n = spec_u32_of(body.subrange(p, p + 4));
            let w: int = if version == 1 {
                8
            } else {
                4
            };
            if body.len() < p + 4 + w * n {
                Err(Mp4Error::TruncatedInput)
            } else if body.len() > p + 4 + w * n {
                Err(Mp4Error::SizeMismatch)
            } else {
                Ok(())
            }
        }
    }
}

pub fn parse_saio(body: &[u8]) -> (r: Result<BoxSaio, Mp4Error>)
    ensures
        match r {
            Ok(b) => spec_saio_ok(body@) is Ok && spec_saio_wf(b) && spec_saio_body(b) == body@,
            Err(e) => spec_saio_ok(body@) == Err::<(), Mp4Error>(e),
        },
{
    let (version, flags, i) = match read_fullbox_header(body, 0) {
        Ok(p) => p,
        Err(e) => return Err(e),
    };
    let mut j = i;
    let mut aux_info_type: Option<u32> = None;
    let mut aux_info_type_parameter: Option<u32> = None;
    if flags & 0x000001 != 0 {
        match read_u32(body, j) {
            Ok((v, k)) => {
                aux_info_type = Some(v);
                j = k;
            },
            Err(e) => return Err(e),
        }
        match read_u32(body, j) {
            Ok((v, k)) => {
                aux_info_type_parameter = Some(v);
                j = k;
            },
            Err(e) => return Err(e),
        }
    }
    let ghost p = j as int;
    let (offset_count, j1) = match read_u32(body, j) {
        Ok(p2) => p2,
        Err(e) => return Err(e),
    };
    let wide = version == 1;
    let n = offset_count as usize;
    let mut offsets: Vec<SaioEntry> = Vec::new();
    let mut j2 = j1;
    let mut k: usize = 0;
    while k < n
        invariant
            k <= n,
            body@.len() >= p + 4,
            4 <= p <= body@.len(),
            version == body@[0],
            flags == spec_u24_of(body@.subrange(1, 4)),
            p == 4 + if flags & 0x000001 != 0 {
                8int
            } else {
                0
            },
            offset_count == spec_u32_of(body@.subrange(p, p + 4)),
            n as int == offset_count as int,
            wide == (version == 1),
            j2 == p + 4 + (if wide {
                8int
            } else {
                4
            }) * k,
            j2 <= body@.len(),
            offsets@.len() == k,
            forall|m: int| 0 <= m < k ==> ((#[trigger] offsets@[m]).offset is A <==> wide),
            spec_saio_entries(offsets@) == body@.subrange(p + 4, j2 as int),
        decreases n - k,
    {
        let ghost w: int = if wide {
            8
        } else {
            4
        };
        proof {
            assert(p + 4 + w * n >= j2 + w) by (nonlinear_arith)
                requires
                    j2 == p + 4 + w * k,
                    k < n,
                    w >= 1,
            ;
        }
        let (offset, j3) = match read_either_64(body, j2, wide) {
            Ok(p2) => p2,
            Err(e) => return Err(e),
        };
        let entry = SaioEntry { offset };
        proof {
            let f = |e: SaioEntry| spec_saio_entry(e);
            assert(f(entry) == spec_saio_entry(entry));
            lemma_concat_bytes_push(offsets@, f, entry);
            lemma_subrange_glue(body@, p + 4, j2 as int, j3 as int);
            assert(spec_saio_entries(offsets@.push(entry)) == body@.subrange(p + 4, j3 as int));
        }
        offsets.push(entry);
        j2 = j3;
        k = k + 1;
    }
    if j2 != body.len() {
        proof {
            let w: int = if wide {
                8
            } else {
                4
            };
            assert(body@.len() > p + 4 + w * (offset_count as int)) by (nonlinear_arith)
                requires
                    j2 == p + 4 + w * (offset_count as int),
                    body@.len() > j2,
            ;
        }
        return Err(Mp4Error::SizeMismatch);
    }
    let b = BoxSaio { version, flags, aux_info_type, aux_info_type_parameter, offset_count, offsets };
    proof {
        let s = body@;
        let oa: int = 4 + if flags & 0x000001 != 0 {
            4int
        } else {
            0
        };
        assert(spec_opt32(b.aux_info_type) =~= s.subrange(4, oa));
        assert(spec_opt32(b.aux_info_type_parameter) =~= s.subrange(oa, p));
        lemma_subrange_glue(s, 0, 4, oa);
        lemma_subrange_glue(s, 0, oa, p);
        lemma_subrange_glue(s, 0, p, p + 4);
        lemma_subrange_glue(s, 0, p + 4, j2 as int);
        lemma_subrange_all(s);
    }
    Ok(b)
}

pub fn write_saio(b: &BoxSaio, out: &mut Vec<u8>)
    ensures
        final(out)@ == old(out)@ + spec_saio_body(*b),
{
    push_u8(out, b.version);
    push_u24(out, b.flags);
    match b.aux_info_type {
        Some(x) => push_u32(out, x),
        None => (),
    }
    match b.aux_info_type_parameter {
        Some(x) => push_u32(out, x),
        None => (),
    }
    push_u32(out, b.offset_count);
    let ghost base = out@;
    let n = b.offsets.len();
    let mut k: usize = 0;
    while k < n
        invariant
            k <= n,
            n == b.offsets@.len(),
            out@ == base + spec_saio_entries(b.offsets@.take(k as int)),
        decreases n - k,
    {
        let e = &b.offsets[k];
        proof {
            let f = |e: SaioEntry| spec_saio_entry(e);
            assert(f(b.offsets@[k as int]) == spec_saio_entry(b.offsets@[k as int]));
            lemma_concat_bytes_take_push(b.offsets@, f, k as int);
        }
        push_either_64(out, &e.offset);
        proof {
            assert(out@ =~= base + spec_saio_entries(b.offsets@.take(k as int + 1)));
        }
        k = k + 1;
    }
    proof {
        assert(b.offsets@.take(n as int) =~= b.offsets@);
        assert(out@ =~= old(out)@ + spec_saio_body(*b));
    }
}

// ---------------------------------------------------------------------------
// Ftyp
// ---------------------------------------------------------------------------

pub open spec fn spec_ftyp_body(b: BoxFtyp) -> Seq<u8> {
    b.major_brand@ + spec_be32(b.minor_version) + b.compatible_brands@
}

pub open spec fn spec_ftyp_wf(b: BoxFtyp) -> bool {
    &&& b.major_brand@.len() == 4
    &&& b.compatible_brands@.len() % 4 == 0
}

/// A body parses exactly when it holds the brand and version and the rest
/// falls into whole 4-byte brand codes.
pub open spec fn spec_ftyp_ok(body: Seq<u8>) -> Result<(), Mp4Error> {
    if body.len() < 8 {
        Err(Mp4Error::TruncatedInput)
    } else if (body.len() - 8) % 4 != 0 {
        Err(Mp4Error::SizeMismatch)
    } else {
        Ok(())
    }
}

pub fn parse_ftyp(body: &[u8]) -> (r: Result<BoxFtyp, Mp4Error>)
    ensures
        match r {
            Ok(b) => spec_ftyp_ok(body@) is Ok && spec_ftyp_wf(b) && spec_ftyp_body(b) == body@,
            Err(e) => spec_ftyp_ok(body@) == Err::<(), Mp4Error>(e),
        },
{
    let (major_brand, i) = match read_bytes(body, 0, 4) {
        Ok(p) => p,
        Err(e) => return Err(e),
    };
    let (minor_version, i) = match read_u32(body, i) {
        Ok(p) => p,
        Err(e) => return Err(e),
    };
    let rem = body.len() - i;
    if rem % 4 != 0 {
        return Err(Mp4Error::SizeMismatch);
    }
    let (compatible_brands, i2) = match read_bytes(body, i, rem) {
        Ok(p) => p,
        Err(e) => return Err(e),
    };
    let b = BoxFtyp { major_brand, minor_version, compatible_brands };
    proof {
        lemma_subrange_glue(body@, 0, 4, 8);
        lemma_subrange_glue(body@, 0, 8, i2 as int);
        lemma_subrange_all(body@);
    }
    Ok(b)
}

pub fn write_ftyp(b: &BoxFtyp, out: &mut Vec<u8>)
    ensures
        final(out)@ == old(out)@ + spec_ftyp_body(*b),
{
    push_bytes(out, &b.major_brand);
    push_u32(out, b.minor_version);
    push_bytes(out, &b.compatible_brands);
    proof {
        assert(out@ =~= old(out)@ + spec_ftyp_body(*b));
    }
}

} // verus!
