//! Fragment run kinds whose bodies hold per-sample records shaped by the
//! box flags: `Trun` (uniform per-sample width) and `Senc` (per-sample
//! subsample tables of varying length).

use vstd::prelude::*;

use crate::either::Either;
use crate::errors::Mp4Error;
use crate::types::{BoxSenc, BoxTrun, SencSample, SencSubsample, TrunSample};
use crate::wire::{
    concat_bytes, lemma_concat_bytes_push, lemma_concat_bytes_take_push, lemma_subrange_all,
    lemma_subrange_glue, push_bytes, push_either_32, push_i32, push_u16, push_u24, push_u32,
    push_u8,
    read_bytes, read_either_32, read_fullbox_header, read_i32, read_u16, read_u32, spec_be16,
    spec_be24, spec_be32, spec_opt16, spec_opt32, spec_opt_e32, spec_opt_i32, spec_u16_of,
    spec_u24_of, spec_u32_of,
};

verus! {

// ---------------------------------------------------------------------------
// Trun
// ---------------------------------------------------------------------------

pub open spec fn spec_trun_sample(smp: TrunSample) -> Seq<u8> {
    spec_opt32(smp.sample_duration) + spec_opt32(smp.sample_size) + spec_opt32(smp.sample_flags)
        + spec_opt_e32(smp.sample_composition_time_offset)
}

pub open spec fn spec_trun_samples(s: Seq<TrunSample>) -> Seq<u8> {
    concat_bytes(s, |e: TrunSample| spec_trun_sample(e))
}

pub open spec fn spec_trun_body(b: BoxTrun) -> Seq<u8> {
    seq![b.version] + spec_be24(b.flags) + spec_be32(b.sample_count) + spec_opt_i32(b.data_offset)
        + spec_opt32(b.first_sample_flags) + spec_trun_samples(b.samples@)
}

/// Per-sample fields are present exactly when their flag bit is set; the
/// composition offset is signed exactly when the version is 1.
pub open spec fn spec_trun_sample_wf(smp: TrunSample, flags: u32, version: u8) -> bool {
    &&& (smp.sample_duration is Some <==> flags & 0x000100 != 0)
    &&& (smp.sample_size is Some <==> flags & 0x000200 != 0)
    &&& (smp.sample_flags is Some <==> flags & 0x000400 != 0)
    &&& (smp.sample_composition_time_offset is Some <==> flags & 0x000800 != 0)
    &&& (smp.sample_composition_time_offset matches Some(e) ==> (e is A <==> version == 1))
}

pub open spec fn spec_trun_wf(b: BoxTrun) -> bool {
    &&& b.flags < 0x1000000
    &&& (b.data_offset is Some <==> b.flags & 0x000001 != 0)
    &&& (b.first_sample_flags is Some <==> b.flags & 0x000004 != 0)
    &&& b.samples@.len() == b.sample_count as int
    &&& forall|m: int|
        0 <= m < b.samples@.len() ==> spec_trun_sample_wf(
            #[trigger] b.samples@[m],
            b.flags,
            b.version,
        )
}

/// Bytes one sample occupies under these flags.
pub open spec fn spec_trun_sample_len(flags: u32) -> int {
    (if flags & 0x000100 != 0 {
        4int
    } else {
        0
    }) + (if flags & 0x000200 != 0 {
        4int
    } else {
        0
    }) + (if flags & 0x000400 != 0 {
        4int
    } else {
        0
    }) + (if flags & 0x000800 != 0 {
        4int
    } else {
        0
    })
}

/// Bytes the fields before the sample table occupy under these flags.
pub open spec fn spec_trun_prefix_len(flags: u32) -> int {
    8 + (if flags & 0x000001 != 0 {
        4int
    } else {
        0
    }) + (if flags & 0x000004 != 0 {
        4int
    } else {
        0
    })
}

/// A body parses exactly when its length is the flag-determined prefix
/// plus `sample_count` samples of the flag-determined width.
pub open spec fn spec_trun_ok(body: Seq<u8>) -> Result<(), Mp4Error> {
    if body.len() < 8 {
        Err(Mp4Error::TruncatedInput)
    } else {
        let flags = spec_u24_of(body.subrange(1, 4));
        let n = spec_u32_of(body.subrange(4, 8));
        let total = spec_trun_prefix_len(flags) + spec_trun_sample_len(flags) * n;
        if body.len() < total {
            Err(Mp4Error::TruncatedInput)
        } else if body.len() > total {
            Err(Mp4Error::SizeMismatch)
        } else {
            Ok(())
        }
    }
}

#[verifier::rlimit(100)]
#[verifier::spinoff_prover]
pub fn parse_trun(body: &[u8]) -> (r: Result<BoxTrun, Mp4Error>)
    ensures
        match r {
            Ok(b) => spec_trun_ok(body@) is Ok && spec_trun_wf(b) && spec_trun_body(b) == body@,
            Err(e) => spec_trun_ok(body@) == Err::<(), Mp4Error>(e),
        },
{
    let (version, flags, i) = match read_fullbox_header(body, 0) {
        Ok(p) => p,
        Err(e) => return Err(e),
    };
    let (sample_count, i) = match read_u32(body, i) {
        Ok(p) => p,
        Err(e) => return Err(e),
    };
    let mut j = i;
    let mut data_offset: Option<i32> = None;
    if flags & 0x000001 != 0 {
        match read_i32(body, j) {
            Ok((v, k)) => {
                data_offset = Some(v);
                j = k;
            },
            Err(e) => return Err(e),
        }
    }
    let mut first_sample_flags: Option<u32> = None;
    if flags & 0x000004 != 0 {
        match read_u32(body, j) {
            Ok((v, k)) => {
                first_sample_flags = Some(v);
                j = k;
            },
            Err(e) => return Err(e),
        }
    }
    let ghost p = j as int;
    let signed = version == 1;
    let n = sample_count as usize;
    let mut samples: Vec<TrunSample> = Vec::new();
    let mut k: usize = 0;
    while k < n
        invariant
            k <= n,
            body@.len() >= 8,
            flags == spec_u24_of(body@.subrange(1, 4)),
            flags < 0x1000000,
            version == body@[0],
            signed == (version == 1),
            sample_count == spec_u32_of(body@.subrange(4, 8)),
            n as int == sample_count as int,
            p == spec_trun_prefix_len(flags),
            j == p + spec_trun_sample_len(flags) * k,
            j <= body@.len(),
            samples@.len() == k,
            forall|m: int|
                0 <= m < k ==> spec_trun_sample_wf(#[trigger] samples@[m], flags, version),
            spec_trun_samples(samples@) == body@.subrange(p, j as int),
        decreases n - k,
    {
        let ghost w = spec_trun_sample_len(flags);
        proof {
            assert(p + w * n >= j + w) by (nonlinear_arith)
                requires
                    j == p + w * k,
                    k < n,
                    w >= 0,
            ;
        }
        let mut jj = j;
        let mut sample_duration: Option<u32> = None;
        if flags & 0x000100 != 0 {
            match read_u32(body, jj) {
                Ok((v, k2)) => {
                    sample_duration = Some(v);
                    jj = k2;
                },
                Err(e) => return Err(e),
            }
        }
        let mut sample_size: Option<u32> = None;
        if flags & 0x000200 != 0 {
            match read_u32(body, jj) {
                Ok((v, k2)) => {
                    sample_size = Some(v);
                    jj = k2;
                },
                Err(e) => return Err(e),
            }
        }
        let mut sample_flags: Option<u32> = None;
        if flags & 0x000400 != 0 {
            match read_u32(body, jj) {
                Ok((v, k2)) => {
                    sample_flags = Some(v);
                    jj = k2;
                },
                Err(e) => return Err(e),
            }
        }
        let mut sample_composition_time_offset: Option<Either<i32, u32>> = None;
        if flags & 0x000800 != 0 {
            match read_either_32(body, jj, signed) {
                Ok((v, k2)) => {
                    sample_composition_time_offset = Some(v);
                    jj = k2;
                },
                Err(e) => return Err(e),
            }
        }
        let smp = TrunSample {
            sample_duration,
            sample_size,
            sample_flags,
            sample_composition_time_offset,
        };
        proof {
            let s = body@;
            let o1: int = j + (if flags & 0x000100 != 0 {
                4int
            } else {
                0
            });
            let o2: int = o1 + (if flags & 0x000200 != 0 {
                4int
            } else {
                0
            });
            let o3: int = o2 + (if flags & 0x000400 != 0 {
                4int
            } else {
                0
            });
            let o4: int = o3 + (if flags & 0x000800 != 0 {
                4int
            } else {
                0
            });
            assert(spec_opt32(smp.sample_duration) =~= s.subrange(j as int, o1));
            assert(spec_opt32(smp.sample_size) =~= s.subrange(o1, o2));
            assert(spec_opt32(smp.sample_flags) =~= s.subrange(o2, o3));
            assert(spec_opt_e32(smp.sample_composition_time_offset) =~= s.subrange(o3, o4));
            lemma_subrange_glue(s, j as int, o1, o2);
            lemma_subrange_glue(s, j as int, o2, o3);
            lemma_subrange_glue(s, j as int, o3, o4);
            assert(spec_trun_sample(smp) == s.subrange(j as int, jj as int));
            let f = |e: TrunSample| spec_trun_sample(e);
            assert(f(smp) == spec_trun_sample(smp));
            lemma_concat_bytes_push(samples@, f, smp);
            lemma_subrange_glue(s, p, j as int, jj as int);
            assert(spec_trun_samples(samples@.push(smp)) == s.subrange(p, jj as int));
            assert(jj == j + w);
            assert(p + w * (k + 1) == p + w * k + w) by (nonlinear_arith);
        }
        samples.push(smp);
        j = jj;
        k = k + 1;
    }
    if j != body.len() {
        proof {
            let w = spec_trun_sample_len(flags);
            assert(body@.len() > p + w * (sample_count as int)) by (nonlinear_arith)
                requires
                    j == p + w * (sample_count as int),
                    body@.len() > j,
            ;
        }
        return Err(Mp4Error::SizeMismatch);
    }
    let b = BoxTrun { version, flags, sample_count, data_offset, first_sample_flags, samples };
    proof {
        let s = body@;
        let oa: int = 8 + (if flags & 0x000001 != 0 {
            4int
        } else {
            0
        });
        assert(spec_opt_i32(b.data_offset) =~= s.subrange(8, oa));
        assert(spec_opt32(b.first_sample_flags) =~= s.subrange(oa, p));
        lemma_subrange_glue(s, 0, 4, 8);
        lemma_subrange_glue(s, 0, 8, oa);
        lemma_subrange_glue(s, 0, oa, p);
        lemma_subrange_glue(s, 0, p, j as int);
        lemma_subrange_all(s);
    }
    Ok(b)
}

pub fn write_trun(b: &BoxTrun, out: &mut Vec<u8>)
    ensures
        final(out)@ == old(out)@ + spec_trun_body(*b),
{
    push_u8(out, b.version);
    push_u24(out, b.flags);
    push_u32(out, b.sample_count);
    match b.data_offset {
        Some(x) => push_i32(out, x),
        None => (),
    }
    match b.first_sample_flags {
        Some(x) => push_u32(out, x),
        None => (),
    }
    let ghost base = out@;
    proof {
        assert(base =~= old(out)@ + (seq![b.version] + spec_be24(b.flags) + spec_be32(
            b.sample_count,
        ) + spec_opt_i32(b.data_offset) + spec_opt32(b.first_sample_flags)));
    }
    let n = b.samples.len();
    let mut k: usize = 0;
    while k < n
        invariant
            k <= n,
            n == b.samples@.len(),
            out@ == base + spec_trun_samples(b.samples@.take(k as int)),
        decreases n - k,
    {
        let smp = &b.samples[k];
        proof {
            let f = |e: TrunSample| spec_trun_sample(e);
            assert(f(b.samples@[k as int]) == spec_trun_sample(b.samples@[k as int]));
            lemma_concat_bytes_take_push(b.samples@, f, k as int);
        }
        match smp.sample_duration {
            Some(x) => push_u32(out, x),
            None => (),
        }
        match smp.sample_size {
            Some(x) => push_u32(out, x),
            None => (),
        }
        match smp.sample_flags {
            Some(x) => push_u32(out, x),
            None => (),
        }
        match &smp.sample_composition_time_offset {
            Some(e) => push_either_32(out, e),
            None => (),
        }
        proof {
            assert(out@ =~= base + spec_trun_samples(b.samples@.take(k as int + 1)));
        }
        k = k + 1;
    }
    proof {
        assert(b.samples@.take(n as int) =~= b.samples@);
        assert(out@ =~= old(out)@ + spec_trun_body(*b));
    }
}

// ---------------------------------------------------------------------------
// Senc
// ---------------------------------------------------------------------------

pub open spec fn spec_senc_sub(e: SencSubsample) -> Seq<u8> {
    spec_be16(e.clear_bytes) + spec_be32(e.cipher_bytes)
}

pub open spec fn spec_senc_subs(s: Seq<SencSubsample>) -> Seq<u8> {
    concat_bytes(s, |e: SencSubsample| spec_senc_sub(e))
}

pub open spec fn spec_senc_sample(smp: SencSample) -> Seq<u8> {
    smp.iv@ + spec_opt16(smp.subsample_count) + (match smp.subsamples {
        Some(v) => spec_senc_subs(v@),
        None => Seq::empty(),
    })
}

pub open spec fn spec_senc_samples(s: Seq<SencSample>) -> Seq<u8> {
    concat_bytes(s, |e: SencSample| spec_senc_sample(e))
}

pub open spec fn spec_senc_body(b: BoxSenc) -> Seq<u8> {
    seq![b.version] + spec_be24(b.flags) + spec_be32(b.sample_count) + spec_senc_samples(
        b.samples@,
    )
}

/// The subsample table of a sample is present exactly when flag bit 2 is
/// set, and then holds `subsample_count` entries.
pub open spec fn spec_senc_sample_wf(smp: SencSample, sub: bool) -> bool {
    &&& smp.iv@.len() == 8
    &&& (smp.subsample_count is Some <==> sub)
    &&& (smp.subsamples is Some <==> sub)
    &&& (smp.subsample_count matches Some(c) ==> (smp.subsamples matches Some(v) && v@.len()
        == c as int))
}

pub open spec fn spec_senc_wf(b: BoxSenc) -> bool {
    &&& b.flags < 0x1000000
    &&& b.samples@.len() == b.sample_count as int
    &&& forall|m: int|
        0 <= m < b.samples@.len() ==> spec_senc_sample_wf(
            #[trigger] b.samples@[m],
            b.flags & 0x000002 != 0,
        )
}

/// Where a run of `k` samples starting at `i` ends: each sample is an
/// 8-byte IV, plus — when `sub` — a 16-bit count and that many 6-byte
/// subsample entries. Running past the end of the body is a truncation.
pub open spec fn spec_senc_scan(s: Seq<u8>, i: int, k: nat, sub: bool) -> Result<int, Mp4Error>
    decreases k,
{
    if k == 0 {
        Ok(i)
    } else if i + 8 > s.len() {
        Err(Mp4Error::TruncatedInput)
    } else if !sub {
        spec_senc_scan(s, i + 8, (k - 1) as nat, sub)
    } else if i + 10 > s.len() {
        Err(Mp4Error::TruncatedInput)
    } else {
        let c = spec_u16_of(s.subrange(i + 8, i + 10));
        if i + 10 + 6 * c > s.len() {
            Err(Mp4Error::TruncatedInput)
        } else {
            spec_senc_scan(s, i + 10 + 6 * c, (k - 1) as nat, sub)
        }
    }
}

/// A body parses exactly when the sample run fills it to the last byte.
pub open spec fn spec_senc_ok(body: Seq<u8>) -> Result<(), Mp4Error> {
    if body.len() < 8 {
        Err(Mp4Error::TruncatedInput)
    } else {
        let flags = spec_u24_of(body.subrange(1, 4));
        let n = spec_u32_of(body.subrange(4, 8));
        match spec_senc_scan(body, 8, n as nat, flags & 0x000002 != 0) {
            Err(e) => Err(e),
            Ok(end) => {
                if end != body.len() {
                    Err(Mp4Error::SizeMismatch)
                } else {
                    Ok(())
                }
            },
        }
    }
}

#[verifier::rlimit(100)]
#[verifier::spinoff_prover]
pub fn parse_senc(body: &[u8]) -> (r: Result<BoxSenc, Mp4Error>)
    ensures
        match r {
            Ok(b) => spec_senc_ok(body@) is Ok && spec_senc_wf(b) && spec_senc_body(b) == body@,
            Err(e) => spec_senc_ok(body@) == Err::<(), Mp4Error>(e),
        },
{
    let (version, flags, i) = match read_fullbox_header(body, 0) {
        Ok(p) => p,
        Err(e) => return Err(e),
    };
    let (sample_count, i) = match read_u32(body, i) {
        Ok(p) => p,
        Err(e) => return Err(e),
    };
    let sub = flags & 0x000002 != 0;
    let n = sample_count as usize;
    let mut samples: Vec<SencSample> = Vec::new();
    let mut j = i;
    let mut k: usize = 0;
    while k < n
        invariant
            k <= n,
            body@.len() >= 8,
            flags == spec_u24_of(body@.subrange(1, 4)),
            flags < 0x1000000,
            sub == (flags & 0x000002 != 0),
            sample_count == spec_u32_of(body@.subrange(4, 8)),
            n as int == sample_count as int,
            8 <= j <= body@.len(),
            samples@.len() == k,
            forall|m: int| 0 <= m < k ==> spec_senc_sample_wf(#[trigger] samples@[m], sub),
            spec_senc_samples(samples@) == body@.subrange(8, j as int),
            spec_senc_scan(body@, 8, n as nat, sub) == spec_senc_scan(
                body@,
                j as int,
                (n - k) as nat,
                sub,
            ),
        decreases n - k,
    {
        let (iv, j1) = match read_bytes(body, j, 8) {
            Ok(p) => p,
            Err(e) => return Err(e),
        };
        if !sub {
            let smp = SencSample { iv, subsample_count: None, subsamples: None };
            proof {
                let s = body@;
                assert(spec_senc_sample(smp) =~= s.subrange(j as int, j1 as int));
                let f = |e: SencSample| spec_senc_sample(e);
                assert(f(smp) == spec_senc_sample(smp));
                lemma_concat_bytes_push(samples@, f, smp);
                lemma_subrange_glue(s, 8, j as int, j1 as int);
                assert(spec_senc_samples(samples@.push(smp)) == s.subrange(8, j1 as int));
            }
            samples.push(smp);
            j = j1;
            k = k + 1;
        } else {
            let (cnt, j2) = match read_u16(body, j1) {
                Ok(p) => p,
                Err(e) => return Err(e),
            };
            let c = cnt as usize;
            let mut subs: Vec<SencSubsample> = Vec::new();
            let mut jj = j2;
            let mut m: usize = 0;
            while m < c
                invariant
                    m <= c,
                    body@.len() >= 8,
                    flags == spec_u24_of(body@.subrange(1, 4)),
                    flags < 0x1000000,
                    sub == (flags & 0x000002 != 0),
                    sub,
                    sample_count == spec_u32_of(body@.subrange(4, 8)),
                    n as int == sample_count as int,
                    k < n,
                    8 <= j,
                    j + 10 <= body@.len(),
                    j2 == j + 10,
                    cnt == spec_u16_of(body@.subrange(j as int + 8, j as int + 10)),
                    c as int == cnt as int,
                    jj == j2 + 6 * m,
                    jj <= body@.len(),
                    subs@.len() == m,
                    spec_senc_subs(subs@) == body@.subrange(j2 as int, jj as int),
                    spec_senc_scan(body@, 8, n as nat, sub) == spec_senc_scan(
                        body@,
                        j as int,
                        (n - k) as nat,
                        sub,
                    ),
                decreases c - m,
            {
                proof {
                    assert(j2 + 6 * c >= jj + 6) by (nonlinear_arith)
                        requires
                            jj == j2 + 6 * m,
                            m < c,
                    ;
                }
                let (clear_bytes, p1) = match read_u16(body, jj) {
                    Ok(p) => p,
                    Err(e) => return Err(e),
                };
                let (cipher_bytes, p2) = match read_u32(body, p1) {
                    Ok(p) => p,
                    Err(e) => return Err(e),
                };
                let entry = SencSubsample { clear_bytes, cipher_bytes };
                proof {
                    let s = body@;
                    lemma_subrange_glue(s, jj as int, jj as int + 2, jj as int + 6);
                    assert(spec_senc_sub(entry) =~= s.subrange(jj as int, jj as int + 6));
                    let f = |e: SencSubsample| spec_senc_sub(e);
                    assert(f(entry) == spec_senc_sub(entry));
                    lemma_concat_bytes_push(subs@, f, entry);
                    lemma_subrange_glue(s, j2 as int, jj as int, jj as int + 6);
                    assert(spec_senc_subs(subs@.push(entry)) == s.subrange(
                        j2 as int,
                        jj as int + 6,
                    ));
                }
                subs.push(entry);
                jj = p2;
                m = m + 1;
            }
            let smp = SencSample { iv, subsample_count: Some(cnt), subsamples: Some(subs) };
            proof {
                let s = body@;
                assert(spec_opt16(smp.subsample_count) == s.subrange(j as int + 8, j as int + 10));
                lemma_subrange_glue(s, j as int, j as int + 8, j as int + 10);
                lemma_subrange_glue(s, j as int, j as int + 10, jj as int);
                assert(spec_senc_sample(smp) == s.subrange(j as int, jj as int));
                let f = |e: SencSample| spec_senc_sample(e);
                assert(f(smp) == spec_senc_sample(smp));
                lemma_concat_bytes_push(samples@, f, smp);
                lemma_subrange_glue(s, 8, j as int, jj as int);
                assert(spec_senc_samples(samples@.push(smp)) == s.subrange(8, jj as int));
            }
            samples.push(smp);
            j = jj;
            k = k + 1;
        }
    }
    if j != body.len() {
        return Err(Mp4Error::SizeMismatch);
    }
    let b = BoxSenc { version, flags, sample_count, samples };
    proof {
        lemma_subrange_glue(body@, 0, 4, 8);
        lemma_subrange_glue(body@, 0, 8, j as int);
        lemma_subrange_all(body@);
    }
    Ok(b)
}

pub fn write_senc(b: &BoxSenc, out: &mut Vec<u8>)
    ensures
        final(out)@ == old(out)@ + spec_senc_body(*b),
{
    push_u8(out, b.version);
    push_u24(out, b.flags);
    push_u32(out, b.sample_count);
    let ghost base = out@;
    let n = b.samples.len();
    let mut k: usize = 0;
    while k < n
        invariant
            k <= n,
            n == b.samples@.len(),
            out@ == base + spec_senc_samples(b.samples@.take(k as int)),
        decreases n - k,
    {
        let smp = &b.samples[k];
        proof {
            let f = |e: SencSample| spec_senc_sample(e);
            assert(f(b.samples@[k as int]) == spec_senc_sample(b.samples@[k as int]));
            lemma_concat_bytes_take_push(b.samples@, f, k as int);
        }
        let ghost base1 = out@;
        push_bytes(out, &smp.iv);
        match smp.subsample_count {
            Some(c) => push_u16(out, c),
            None => (),
        }
        match &smp.subsamples {
            Some(subs) => {
                let ghost base2 = out@;
                let cn = subs.len();
                let mut m: usize = 0;
                while m < cn
                    invariant
                        m <= cn,
                        cn == subs@.len(),
                        out@ == base2 + spec_senc_subs(subs@.take(m as int)),
                    decreases cn - m,
                {
                    let e = &subs[m];
                    proof {
                        let f = |e: SencSubsample| spec_senc_sub(e);
                        assert(f(subs@[m as int]) == spec_senc_sub(subs@[m as int]));
                        lemma_concat_bytes_take_push(subs@, f, m as int);
                    }
                    push_u16(out, e.clear_bytes);
                    push_u32(out, e.cipher_bytes);
                    proof {
                        assert(out@ =~= base2 + spec_senc_subs(subs@.take(m as int + 1)));
                    }
                    m = m + 1;
                }
                proof {
                    assert(subs@.take(cn as int) =~= subs@);
                    assert(out@ =~= base1 + spec_senc_sample(b.samples@[k as int]));
                }
            },
            None => {
                proof {
                    assert(out@ =~= base1 + spec_senc_sample(b.samples@[k as int]));
                }
            },
        }
        proof {
            assert(out@ =~= base + spec_senc_samples(b.samples@.take(k as int + 1)));
        }
        k = k + 1;
    }
    proof {
        assert(b.samples@.take(n as int) =~= b.samples@);
        assert(out@ =~= old(out)@ + spec_senc_body(*b));
    }
}

} // verus!
