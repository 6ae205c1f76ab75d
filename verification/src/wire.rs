//! Bounds-checked big-endian byte codec: the single place where multi-byte
//! integers meet raw bytes. Readers take a buffer and an offset and return
//! the value with the advanced offset; writers append to a byte vector.
//! Each reader's contract gives both the value as a function of the bytes
//! and the bytes as a function of the value, so parse and write can be
//! proved symmetric.

use vstd::prelude::*;
use vstd::slice::slice_subrange;
use vstd::assert_seqs_equal;

use crate::either::Either;
use crate::errors::Mp4Error;

verus! {

// ---------------------------------------------------------------------------
// Big-endian encodings as sequences of bytes
// ---------------------------------------------------------------------------

pub open spec fn spec_be16(x: u16) -> Seq<u8> {
    seq![(x >> 8) as u8, x as u8]
}

/// Three-byte encoding of the low 24 bits of `x`.
pub open spec fn spec_be24(x: u32) -> Seq<u8> {
    seq![(x >> 16) as u8, (x >> 8) as u8, x as u8]
}

pub open spec fn spec_be32(x: u32) -> Seq<u8> {
    seq![(x >> 24) as u8, (x >> 16) as u8, (x >> 8) as u8, x as u8]
}

pub open spec fn spec_be64(x: u64) -> Seq<u8> {
    seq![
        (x >> 56) as u8,
        (x >> 48) as u8,
        (x >> 40) as u8,
        (x >> 32) as u8,
        (x >> 24) as u8,
        (x >> 16) as u8,
        (x >> 8) as u8,
        x as u8,
    ]
}

pub open spec fn spec_be_i16(x: i16) -> Seq<u8> {
    spec_be16(x as u16)
}

pub open spec fn spec_be_i32(x: i32) -> Seq<u8> {
    spec_be32(x as u32)
}

// ---------------------------------------------------------------------------
// Encodings of guarded fields: absent fields contribute no bytes
// ---------------------------------------------------------------------------

pub open spec fn spec_opt8(o: Option<u8>) -> Seq<u8> {
    match o {
        Some(x) => seq![x],
        None => Seq::empty(),
    }
}

pub open spec fn spec_opt16(o: Option<u16>) -> Seq<u8> {
    match o {
        Some(x) => spec_be16(x),
        None => Seq::empty(),
    }
}

pub open spec fn spec_opt32(o: Option<u32>) -> Seq<u8> {
    match o {
        Some(x) => spec_be32(x),
        None => Seq::empty(),
    }
}

pub open spec fn spec_opt64(o: Option<u64>) -> Seq<u8> {
    match o {
        Some(x) => spec_be64(x),
        None => Seq::empty(),
    }
}

pub open spec fn spec_opt_i32(o: Option<i32>) -> Seq<u8> {
    match o {
        Some(x) => spec_be_i32(x),
        None => Seq::empty(),
    }
}

/// Encoding of a field stored wide (64-bit, `A`) or narrow (32-bit, `B`).
pub open spec fn spec_e64(e: Either<u64, u32>) -> Seq<u8> {
    match e {
        Either::A(x) => spec_be64(x),
        Either::B(x) => spec_be32(x),
    }
}

/// Encoding of a field stored signed (`A`) or unsigned (`B`), four bytes
/// either way.
pub open spec fn spec_e32(e: Either<i32, u32>) -> Seq<u8> {
    match e {
        Either::A(x) => spec_be_i32(x),
        Either::B(x) => spec_be32(x),
    }
}

pub open spec fn spec_opt_e32(o: Option<Either<i32, u32>>) -> Seq<u8> {
    match o {
        Some(e) => spec_e32(e),
        None => Seq::empty(),
    }
}

// ---------------------------------------------------------------------------
// Values read back from big-endian bytes
// ---------------------------------------------------------------------------

pub open spec fn spec_u16_of(s: Seq<u8>) -> u16
    recommends
        s.len() == 2,
{
    (((s[0] as u16) << 8) | (s[1] as u16)) as u16
}

pub open spec fn spec_u24_of(s: Seq<u8>) -> u32
    recommends
        s.len() == 3,
{
    (((s[0] as u32) << 16) | ((s[1] as u32) << 8) | (s[2] as u32)) as u32
}

pub open spec fn spec_u32_of(s: Seq<u8>) -> u32
    recommends
        s.len() == 4,
{
    (((s[0] as u32) << 24) | ((s[1] as u32) << 16) | ((s[2] as u32) << 8) | (s[3] as u32)) as u32
}

pub open spec fn spec_u64_of(s: Seq<u8>) -> u64
    recommends
        s.len() == 8,
{
    (((s[0] as u64) << 56) | ((s[1] as u64) << 48) | ((s[2] as u64) << 40) | ((s[3] as u64) << 32)
        | ((s[4] as u64) << 24) | ((s[5] as u64) << 16) | ((s[6] as u64) << 8) | (s[7]
        as u64)) as u64
}

// ---------------------------------------------------------------------------
// The two directions invert each other
// ---------------------------------------------------------------------------

pub proof fn lemma_be16_of(s: Seq<u8>)
    requires
        s.len() == 2,
    ensures
        spec_be16(spec_u16_of(s)) == s,
        spec_u16_of(s) >> 8 < 256,
{
    let a = s[0];
    let b = s[1];
    let x = spec_u16_of(s);
    assert(((((a as u16) << 8) | (b as u16)) as u16) >> 8 == a && ((((a as u16) << 8) | (b
        as u16)) as u16) as u8 == b && ((((a as u16) << 8) | (b as u16)) as u16) >> 8 < 256)
        by (bit_vector);
    assert_seqs_equal!(spec_be16(x) == s);
}

pub proof fn lemma_be24_of(s: Seq<u8>)
    requires
        s.len() == 3,
    ensures
        spec_be24(spec_u24_of(s)) == s,
        spec_u24_of(s) < 0x1000000,
{
    let a = s[0];
    let b = s[1];
    let c = s[2];
    let x = spec_u24_of(s);
    assert({
        let v = (((a as u32) << 16) | ((b as u32) << 8) | (c as u32)) as u32;
        v >> 16 == a && (v >> 8) as u8 == b && v as u8 == c && v < 0x1000000
    }) by (bit_vector);
    assert_seqs_equal!(spec_be24(x) == s);
}

pub proof fn lemma_be32_of(s: Seq<u8>)
    requires
        s.len() == 4,
    ensures
        spec_be32(spec_u32_of(s)) == s,
{
    let a = s[0];
    let b = s[1];
    let c = s[2];
    let d = s[3];
    let x = spec_u32_of(s);
    assert({
        let v = (((a as u32) << 24) | ((b as u32) << 16) | ((c as u32) << 8) | (d as u32)) as u32;
        v >> 24 == a && (v >> 16) as u8 == b && (v >> 8) as u8 == c && v as u8 == d
    }) by (bit_vector);
    assert_seqs_equal!(spec_be32(x) == s);
}

pub proof fn lemma_be64_of(s: Seq<u8>)
    requires
        s.len() == 8,
    ensures
        spec_be64(spec_u64_of(s)) == s,
{
    let b0 = s[0];
    let b1 = s[1];
    let b2 = s[2];
    let b3 = s[3];
    let b4 = s[4];
    let b5 = s[5];
    let b6 = s[6];
    let b7 = s[7];
    let x = spec_u64_of(s);
    assert({
        let v = (((b0 as u64) << 56) | ((b1 as u64) << 48) | ((b2 as u64) << 40) | ((b3
            as u64) << 32) | ((b4 as u64) << 24) | ((b5 as u64) << 16) | ((b6 as u64) << 8) | (b7
            as u64)) as u64;
        v >> 56 == b0 && (v >> 48) as u8 == b1 && (v >> 40) as u8 == b2 && (v >> 32) as u8 == b3
            && (v >> 24) as u8 == b4 && (v >> 16) as u8 == b5 && (v >> 8) as u8 == b6 && v as u8
            == b7
    }) by (bit_vector);
    assert_seqs_equal!(spec_be64(x) == s);
}

// ---------------------------------------------------------------------------
// Sequence glue
// ---------------------------------------------------------------------------

/// Serializations of consecutive ranges concatenate to the whole range.
pub proof fn lemma_subrange_glue(s: Seq<u8>, a: int, b: int, c: int)
    requires
        0 <= a <= b <= c <= s.len(),
    ensures
        s.subrange(a, b) + s.subrange(b, c) == s.subrange(a, c),
{
    assert_seqs_equal!(s.subrange(a, b) + s.subrange(b, c) == s.subrange(a, c));
}

pub proof fn lemma_subrange_all(s: Seq<u8>)
    ensures
        s.subrange(0, s.len() as int) == s,
{
    assert_seqs_equal!(s.subrange(0, s.len() as int) == s);
}

/// Concatenation of the serializations of the elements of a sequence.
pub open spec fn concat_bytes<T>(s: Seq<T>, f: spec_fn(T) -> Seq<u8>) -> Seq<u8>
    decreases s.len(),
{
    if s.len() == 0 {
        Seq::empty()
    } else {
        f(s[0]) + concat_bytes(s.drop_first(), f)
    }
}

pub proof fn lemma_concat_bytes_push<T>(s: Seq<T>, f: spec_fn(T) -> Seq<u8>, e: T)
    ensures
        concat_bytes(s.push(e), f) == concat_bytes(s, f) + f(e),
    decreases s.len(),
{
    if s.len() == 0 {
        assert(s.push(e).drop_first() =~= Seq::<T>::empty());
        assert(s.push(e)[0] == e);
        assert(concat_bytes(Seq::<T>::empty(), f) == Seq::<u8>::empty());
        assert(concat_bytes(s.push(e), f) == f(e) + Seq::<u8>::empty());
        assert(f(e) + Seq::<u8>::empty() =~= Seq::<u8>::empty() + f(e));
    } else {
        assert(s.push(e).drop_first() =~= s.drop_first().push(e));
        assert(s.push(e)[0] == s[0]);
        lemma_concat_bytes_push(s.drop_first(), f, e);
        assert(concat_bytes(s.push(e), f) == f(s[0]) + (concat_bytes(s.drop_first(), f) + f(e)));
        assert(f(s[0]) + (concat_bytes(s.drop_first(), f) + f(e)) =~= (f(s[0]) + concat_bytes(
            s.drop_first(),
            f,
        )) + f(e));
    }
}

/// Appending one element appends its bytes.
pub proof fn lemma_concat_bytes_take_push<T>(s: Seq<T>, f: spec_fn(T) -> Seq<u8>, k: int)
    requires
        0 <= k < s.len(),
    ensures
        concat_bytes(s.take(k + 1), f) == concat_bytes(s.take(k), f) + f(s[k]),
{
    assert(s.take(k + 1) =~= s.take(k).push(s[k]));
    lemma_concat_bytes_push(s.take(k), f, s[k]);
}

// ---------------------------------------------------------------------------
// Bounds-checked readers
// ---------------------------------------------------------------------------

/// Returns the `n` bytes at `i` as a subslice, or nothing if fewer remain.
pub fn read<'a>(s: &'a [u8], i: usize, n: usize) -> (r: Option<&'a [u8]>)
    requires
        i <= s@.len(),
    ensures
        match r {
            Some(sl) => i + n <= s@.len() && sl@ == s@.subrange(i as int, i as int + n),
            None => i + n > s@.len(),
        },
{
    if n <= s.len() - i {
        Some(slice_subrange(s, i, i + n))
    } else {
        None
    }
}

pub fn is_empty(s: &[u8], i: usize) -> (r: bool)
    ensures
        r == (i == s@.len()),
{
    i == s.len()
}

pub fn read_u8(s: &[u8], i: usize) -> (r: Result<(u8, usize), Mp4Error>)
    requires
        i <= s@.len(),
    ensures
        match r {
            Ok(p) => i + 1 <= s@.len() && p.1 == i + 1 && p.0 == s@[i as int] && seq![p.0]
                == s@.subrange(i as int, i as int + 1),
            Err(e) => i + 1 > s@.len() && e == Mp4Error::TruncatedInput,
        },
{
    if 1 <= s.len() - i {
        let v = s[i];
        proof {
            assert_seqs_equal!(seq![v] == s@.subrange(i as int, i as int + 1));
        }
        Ok((v, i + 1))
    } else {
        Err(Mp4Error::TruncatedInput)
    }
}

pub fn read_u16(s: &[u8], i: usize) -> (r: Result<(u16, usize), Mp4Error>)
    requires
        i <= s@.len(),
    ensures
        match r {
            Ok(p) => i + 2 <= s@.len() && p.1 == i + 2 && p.0 == spec_u16_of(
                s@.subrange(i as int, i as int + 2),
            ) && spec_be16(p.0) == s@.subrange(i as int, i as int + 2),
            Err(e) => i + 2 > s@.len() && e == Mp4Error::TruncatedInput,
        },
{
    if 2 <= s.len() - i {
        let v = ((s[i] as u16) << 8) | (s[i + 1] as u16);
        proof {
            let sub = s@.subrange(i as int, i as int + 2);
            assert(sub[0] == s@[i as int] && sub[1] == s@[i as int + 1]);
            lemma_be16_of(sub);
        }
        Ok((v, i + 2))
    } else {
        Err(Mp4Error::TruncatedInput)
    }
}

pub fn read_u32(s: &[u8], i: usize) -> (r: Result<(u32, usize), Mp4Error>)
    requires
        i <= s@.len(),
    ensures
        match r {
            Ok(p) => i + 4 <= s@.len() && p.1 == i + 4 && p.0 == spec_u32_of(
                s@.subrange(i as int, i as int + 4),
            ) && spec_be32(p.0) == s@.subrange(i as int, i as int + 4),
            Err(e) => i + 4 > s@.len() && e == Mp4Error::TruncatedInput,
        },
{
    if 4 <= s.len() - i {
        let v = ((s[i] as u32) << 24) | ((s[i + 1] as u32) << 16) | ((s[i + 2] as u32) << 8) | (s[i
            + 3] as u32);
        proof {
            let sub = s@.subrange(i as int, i as int + 4);
            assert(sub[0] == s@[i as int] && sub[1] == s@[i as int + 1] && sub[2] == s@[i as int
                + 2] && sub[3] == s@[i as int + 3]);
            lemma_be32_of(sub);
        }
        Ok((v, i + 4))
    } else {
        Err(Mp4Error::TruncatedInput)
    }
}

pub fn read_u64(s: &[u8], i: usize) -> (r: Result<(u64, usize), Mp4Error>)
    requires
        i <= s@.len(),
    ensures
        match r {
            Ok(p) => i + 8 <= s@.len() && p.1 == i + 8 && p.0 == spec_u64_of(
                s@.subrange(i as int, i as int + 8),
            ) && spec_be64(p.0) == s@.subrange(i as int, i as int + 8),
            Err(e) => i + 8 > s@.len() && e == Mp4Error::TruncatedInput,
        },
{
    if 8 <= s.len() - i {
        let v = ((s[i] as u64) << 56) | ((s[i + 1] as u64) << 48) | ((s[i + 2] as u64) << 40) | ((
        s[i + 3] as u64) << 32) | ((s[i + 4] as u64) << 24) | ((s[i + 5] as u64) << 16) | ((s[i
            + 6] as u64) << 8) | (s[i + 7] as u64);
        proof {
            let sub = s@.subrange(i as int, i as int + 8);
            assert(sub[0] == s@[i as int] && sub[1] == s@[i as int + 1] && sub[2] == s@[i as int
                + 2] && sub[3] == s@[i as int + 3] && sub[4] == s@[i as int + 4] && sub[5] == s@[i
                as int + 5] && sub[6] == s@[i as int + 6] && sub[7] == s@[i as int + 7]);
            lemma_be64_of(sub);
        }
        Ok((v, i + 8))
    } else {
        Err(Mp4Error::TruncatedInput)
    }
}

pub fn read_i16(s: &[u8], i: usize) -> (r: Result<(i16, usize), Mp4Error>)
    requires
        i <= s@.len(),
    ensures
        match r {
            Ok(p) => i + 2 <= s@.len() && p.1 == i + 2 && spec_be_i16(p.0) == s@.subrange(
                i as int,
                i as int + 2,
            ),
            Err(e) => i + 2 > s@.len() && e == Mp4Error::TruncatedInput,
        },
{
    match read_u16(s, i) {
        Ok((v, j)) => {
            let w = #[verifier::truncate] (v as i16);
            proof {
                assert(v as i16 as u16 == v) by (bit_vector);
            }
            Ok((w, j))
        },
        Err(e) => Err(e),
    }
}

pub fn read_i32(s: &[u8], i: usize) -> (r: Result<(i32, usize), Mp4Error>)
    requires
        i <= s@.len(),
    ensures
        match r {
            Ok(p) => i + 4 <= s@.len() && p.1 == i + 4 && spec_be_i32(p.0) == s@.subrange(
                i as int,
                i as int + 4,
            ),
            Err(e) => i + 4 > s@.len() && e == Mp4Error::TruncatedInput,
        },
{
    match read_u32(s, i) {
        Ok((v, j)) => {
            let w = #[verifier::truncate] (v as i32);
            proof {
                assert(v as i32 as u32 == v) by (bit_vector);
            }
            Ok((w, j))
        },
        Err(e) => Err(e),
    }
}

/// Copies the `n` bytes at `i` into a fresh vector.
pub fn read_bytes(s: &[u8], i: usize, n: usize) -> (r: Result<(Vec<u8>, usize), Mp4Error>)
    requires
        i <= s@.len(),
    ensures
        match r {
            Ok(p) => i + n <= s@.len() && p.1 == i + n && p.0@ == s@.subrange(
                i as int,
                i as int + n,
            ),
            Err(e) => i + n > s@.len() && e == Mp4Error::TruncatedInput,
        },
{
    if n <= s.len() - i {
        let end = i + n;
        let mut v: Vec<u8> = Vec::new();
        let mut j: usize = i;
        while j < end
            invariant
                i <= j <= end,
                end == i + n,
                end <= s@.len(),
                v@ == s@.subrange(i as int, j as int),
            decreases end - j,
        {
            v.push(s[j]);
            proof {
                assert_seqs_equal!(v@ == s@.subrange(i as int, j as int + 1));
            }
            j = j + 1;
        }
        Ok((v, end))
    } else {
        Err(Mp4Error::TruncatedInput)
    }
}

/// Reads a version-selected field: eight bytes into `A` when `wide`,
/// four bytes into `B` otherwise.
pub fn read_either_64(s: &[u8], i: usize, wide: bool) -> (r: Result<
    (Either<u64, u32>, usize),
    Mp4Error,
>)
    requires
        i <= s@.len(),
    ensures
        match r {
            Ok(p) => {
                let w: int = if wide {
                    8
                } else {
                    4
                };
                i + w <= s@.len() && p.1 == i + w && spec_e64(p.0) == s@.subrange(
                    i as int,
                    i as int + w,
                ) && (p.0 is A <==> wide)
            },
            Err(e) => i + (if wide {
                8int
            } else {
                4
            }) > s@.len() && e == Mp4Error::TruncatedInput,
        },
{
    if wide {
        match read_u64(s, i) {
            Ok((v, j)) => Ok((Either::A(v), j)),
            Err(e) => Err(e),
        }
    } else {
        match read_u32(s, i) {
            Ok((v, j)) => Ok((Either::B(v), j)),
            Err(e) => Err(e),
        }
    }
}

/// Reads a version-selected 32-bit field: signed into `A` when `signed`,
/// unsigned into `B` otherwise.
pub fn read_either_32(s: &[u8], i: usize, signed: bool) -> (r: Result<
    (Either<i32, u32>, usize),
    Mp4Error,
>)
    requires
        i <= s@.len(),
    ensures
        match r {
            Ok(p) => i + 4 <= s@.len() && p.1 == i + 4 && spec_e32(p.0) == s@.subrange(
                i as int,
                i as int + 4,
            ) && (p.0 is A <==> signed),
            Err(e) => i + 4 > s@.len() && e == Mp4Error::TruncatedInput,
        },
{
    if signed {
        match read_i32(s, i) {
            Ok((v, j)) => Ok((Either::A(v), j)),
            Err(e) => Err(e),
        }
    } else {
        match read_u32(s, i) {
            Ok((v, j)) => Ok((Either::B(v), j)),
            Err(e) => Err(e),
        }
    }
}

/// Reads `n` consecutive big-endian `u32` values.
pub fn read_n_u32(s: &[u8], i: usize, n: usize) -> (r: Result<(Vec<u32>, usize), Mp4Error>)
    requires
        i <= s@.len(),
    ensures
        match r {
            Ok(p) => i + 4 * n <= s@.len() && p.1 == i + 4 * n && p.0@.len() == n && concat_bytes(
                p.0@,
                |x: u32| spec_be32(x),
            ) == s@.subrange(i as int, i as int + 4 * n),
            Err(e) => i + 4 * n > s@.len() && e == Mp4Error::TruncatedInput,
        },
{
    let f = Ghost(|x: u32| spec_be32(x));
    let mut v: Vec<u32> = Vec::new();
    let mut j = i;
    let mut k: usize = 0;
    while k < n
        invariant
            k <= n,
            i <= s@.len(),
            j == i + 4 * k,
            j <= s@.len(),
            v@.len() == k,
            f@ == (|x: u32| spec_be32(x)),
            concat_bytes(v@, f@) == s@.subrange(i as int, j as int),
        decreases n - k,
    {
        match read_u32(s, j) {
            Ok((x, j2)) => {
                proof {
                    assert(f@(x) == spec_be32(x));
                    lemma_concat_bytes_push(v@, f@, x);
                    lemma_subrange_glue(s@, i as int, j as int, j2 as int);
                    assert(concat_bytes(v@.push(x), f@) == s@.subrange(i as int, j2 as int));
                }
                v.push(x);
                j = j2;
                k = k + 1;
            },
            Err(e) => {
                proof {
                    assert(i + 4 * n >= j + 4) by (nonlinear_arith)
                        requires
                            j == i + 4 * k,
                            k < n,
                    ;
                }
                return Err(e);
            },
        }
    }
    Ok((v, j))
}

/// Reads `n` consecutive big-endian `i32` values.
pub fn read_n_i32(s: &[u8], i: usize, n: usize) -> (r: Result<(Vec<i32>, usize), Mp4Error>)
    requires
        i <= s@.len(),
    ensures
        match r {
            Ok(p) => i + 4 * n <= s@.len() && p.1 == i + 4 * n && p.0@.len() == n && concat_bytes(
                p.0@,
                |x: i32| spec_be_i32(x),
            ) == s@.subrange(i as int, i as int + 4 * n),
            Err(e) => i + 4 * n > s@.len() && e == Mp4Error::TruncatedInput,
        },
{
    let f = Ghost(|x: i32| spec_be_i32(x));
    let mut v: Vec<i32> = Vec::new();
    let mut j = i;
    let mut k: usize = 0;
    while k < n
        invariant
            k <= n,
            i <= s@.len(),
            j == i + 4 * k,
            j <= s@.len(),
            v@.len() == k,
            f@ == (|x: i32| spec_be_i32(x)),
            concat_bytes(v@, f@) == s@.subrange(i as int, j as int),
        decreases n - k,
    {
        match read_i32(s, j) {
            Ok((x, j2)) => {
                proof {
                    assert(f@(x) == spec_be_i32(x));
                    lemma_concat_bytes_push(v@, f@, x);
                    lemma_subrange_glue(s@, i as int, j as int, j2 as int);
                    assert(concat_bytes(v@.push(x), f@) == s@.subrange(i as int, j2 as int));
                }
                v.push(x);
                j = j2;
                k = k + 1;
            },
            Err(e) => {
                proof {
                    assert(i + 4 * n >= j + 4) by (nonlinear_arith)
                        requires
                            j == i + 4 * k,
                            k < n,
                    ;
                }
                return Err(e);
            },
        }
    }
    Ok((v, j))
}

/// Reads a full-box header: one version byte, then 24 bits of flags,
/// zero-extended into a `u32` whose top byte is zero.
pub fn read_fullbox_header(s: &[u8], i: usize) -> (r: Result<(u8, u32, usize), Mp4Error>)
    requires
        i <= s@.len(),
    ensures
        match r {
            Ok(p) => i + 4 <= s@.len() && p.2 == i + 4 && p.1 < 0x1000000 && p.0 == s@[i as int]
                && p.1 == spec_u24_of(s@.subrange(i as int + 1, i as int + 4)) && seq![p.0]
                + spec_be24(p.1) == s@.subrange(i as int, i as int + 4),
            Err(e) => i + 4 > s@.len() && e == Mp4Error::TruncatedInput,
        },
{
    if 4 <= s.len() - i {
        let version = s[i];
        let flags = ((s[i + 1] as u32) << 16) | ((s[i + 2] as u32) << 8) | (s[i + 3] as u32);
        proof {
            let sub = s@.subrange(i as int + 1, i as int + 4);
            assert(sub[0] == s@[i as int + 1] && sub[1] == s@[i as int + 2] && sub[2] == s@[i
                as int + 3]);
            lemma_be24_of(sub);
            assert_seqs_equal!(seq![version] + spec_be24(flags)
                == s@.subrange(i as int, i as int + 4));
        }
        Ok((version, flags, i + 4))
    } else {
        Err(Mp4Error::TruncatedInput)
    }
}

// ---------------------------------------------------------------------------
// Appending writers
// ---------------------------------------------------------------------------

pub fn push_u8(out: &mut Vec<u8>, x: u8)
    ensures
        final(out)@ == old(out)@ + seq![x],
{
    out.push(x);
    proof {
        assert_seqs_equal!(out@ == old(out)@ + seq![x]);
    }
}

pub fn push_u16(out: &mut Vec<u8>, x: u16)
    ensures
        final(out)@ == old(out)@ + spec_be16(x),
{
    out.push((x >> 8) as u8);
    out.push(x as u8);
    proof {
        assert_seqs_equal!(out@ == old(out)@ + spec_be16(x));
    }
}

pub fn push_u24(out: &mut Vec<u8>, x: u32)
    ensures
        final(out)@ == old(out)@ + spec_be24(x),
{
    out.push((x >> 16) as u8);
    out.push((x >> 8) as u8);
    out.push(x as u8);
    proof {
        assert_seqs_equal!(out@ == old(out)@ + spec_be24(x));
    }
}

pub fn push_u32(out: &mut Vec<u8>, x: u32)
    ensures
        final(out)@ == old(out)@ + spec_be32(x),
{
    out.push((x >> 24) as u8);
    out.push((x >> 16) as u8);
    out.push((x >> 8) as u8);
    out.push(x as u8);
    proof {
        assert_seqs_equal!(out@ == old(out)@ + spec_be32(x));
    }
}

pub fn push_u64(out: &mut Vec<u8>, x: u64)
    ensures
        final(out)@ == old(out)@ + spec_be64(x),
{
    out.push((x >> 56) as u8);
    out.push((x >> 48) as u8);
    out.push((x >> 40) as u8);
    out.push((x >> 32) as u8);
    out.push((x >> 24) as u8);
    out.push((x >> 16) as u8);
    out.push((x >> 8) as u8);
    out.push(x as u8);
    proof {
        assert_seqs_equal!(out@ == old(out)@ + spec_be64(x));
    }
}

pub fn push_i16(out: &mut Vec<u8>, x: i16)
    ensures
        final(out)@ == old(out)@ + spec_be_i16(x),
{
    push_u16(out, x as u16);
}

pub fn push_i32(out: &mut Vec<u8>, x: i32)
    ensures
        final(out)@ == old(out)@ + spec_be_i32(x),
{
    push_u32(out, x as u32);
}

pub fn push_either_64(out: &mut Vec<u8>, e: &Either<u64, u32>)
    ensures
        final(out)@ == old(out)@ + spec_e64(*e),
{
    match e {
        Either::A(x) => push_u64(out, *x),
        Either::B(x) => push_u32(out, *x),
    }
}

pub fn push_either_32(out: &mut Vec<u8>, e: &Either<i32, u32>)
    ensures
        final(out)@ == old(out)@ + spec_e32(*e),
{
    match e {
        Either::A(x) => push_i32(out, *x),
        Either::B(x) => push_u32(out, *x),
    }
}

pub fn push_n_u32(out: &mut Vec<u8>, data: &Vec<u32>)
    ensures
        final(out)@ == old(out)@ + concat_bytes(data@, |x: u32| spec_be32(x)),
{
    let f = Ghost(|x: u32| spec_be32(x));
    let n = data.len();
    let mut k: usize = 0;
    while k < n
        invariant
            k <= n,
            n == data@.len(),
            f@ == (|x: u32| spec_be32(x)),
            out@ == old(out)@ + concat_bytes(data@.take(k as int), f@),
        decreases n - k,
    {
        proof {
            assert(f@(data@[k as int]) == spec_be32(data@[k as int]));
            lemma_concat_bytes_take_push(data@, f@, k as int);
        }
        push_u32(out, data[k]);
        proof {
            assert(out@ =~= old(out)@ + concat_bytes(data@.take(k as int + 1), f@));
        }
        k = k + 1;
    }
    proof {
        assert(data@.take(n as int) =~= data@);
    }
}

pub fn push_n_i32(out: &mut Vec<u8>, data: &Vec<i32>)
    ensures
        final(out)@ == old(out)@ + concat_bytes(data@, |x: i32| spec_be_i32(x)),
{
    let f = Ghost(|x: i32| spec_be_i32(x));
    let n = data.len();
    let mut k: usize = 0;
    while k < n
        invariant
            k <= n,
            n == data@.len(),
            f@ == (|x: i32| spec_be_i32(x)),
            out@ == old(out)@ + concat_bytes(data@.take(k as int), f@),
        decreases n - k,
    {
        proof {
            assert(f@(data@[k as int]) == spec_be_i32(data@[k as int]));
            lemma_concat_bytes_take_push(data@, f@, k as int);
        }
        push_i32(out, data[k]);
        proof {
            assert(out@ =~= old(out)@ + concat_bytes(data@.take(k as int + 1), f@));
        }
        k = k + 1;
    }
    proof {
        assert(data@.take(n as int) =~= data@);
    }
}

pub fn push_bytes(out: &mut Vec<u8>, data: &Vec<u8>)
    ensures
        final(out)@ == old(out)@ + data@,
{
    let n = data.len();
    let mut k: usize = 0;
    while k < n
        invariant
            k <= n,
            n == data@.len(),
            out@ == old(out)@ + data@.subrange(0, k as int),
        decreases n - k,
    {
        out.push(data[k]);
        proof {
            assert_seqs_equal!(out@ == old(out)@ + data@.subrange(0, k as int + 1));
        }
        k = k + 1;
    }
    proof {
        lemma_subrange_all(data@);
    }
}

} // verus!
