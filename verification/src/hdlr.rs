//! The `Hdlr` kind and its NUL-terminated UTF-8 string field.
//!
//! The string is scanned in leading-byte steps (1 byte below 0x80, 2 from
//! 0xC0, 3 from 0xE0, 4 from 0xF0) until a NUL in leading position, which
//! is consumed; the collected bytes must then be well-formed UTF-8. Any
//! other leading byte, or ill-formed UTF-8, is fatal. Writing appends the
//! raw UTF-8 bytes and the terminator, mirroring the read exactly.

use vstd::prelude::*;

use crate::errors::Mp4Error;
use crate::types::BoxHdlr;
use crate::wire::{
    lemma_subrange_all, lemma_subrange_glue, push_bytes, push_u24, push_u8, read_bytes,
    read_fullbox_header, spec_be24,
};

verus! {

/// A UTF-8 continuation byte.
pub open spec fn spec_is_cont(b: u8) -> bool {
    0x80 <= b <= 0xBF
}

/// Well-formed UTF-8, byte by byte: the leading byte picks the sequence
/// length and constrains the continuation bytes so that overlong forms,
/// surrogates and values past U+10FFFF are all rejected.
pub open spec fn spec_valid_utf8(s: Seq<u8>) -> bool
    decreases s.len(),
{
    if s.len() == 0 {
        true
    } else {
        let b0 = s[0];
        if b0 < 0x80 {
            spec_valid_utf8(s.skip(1))
        } else if b0 < 0xC2 {
            false
        } else if b0 < 0xE0 {
            s.len() >= 2 && spec_is_cont(s[1]) && spec_valid_utf8(s.skip(2))
        } else if b0 == 0xE0 {
            s.len() >= 3 && 0xA0 <= s[1] <= 0xBF && spec_is_cont(s[2]) && spec_valid_utf8(s.skip(3))
        } else if b0 < 0xED {
            s.len() >= 3 && spec_is_cont(s[1]) && spec_is_cont(s[2]) && spec_valid_utf8(s.skip(3))
        } else if b0 == 0xED {
            s.len() >= 3 && 0x80 <= s[1] <= 0x9F && spec_is_cont(s[2]) && spec_valid_utf8(s.skip(3))
        } else if b0 < 0xF0 {
            s.len() >= 3 && spec_is_cont(s[1]) && spec_is_cont(s[2]) && spec_valid_utf8(s.skip(3))
        } else if b0 == 0xF0 {
            s.len() >= 4 && 0x90 <= s[1] <= 0xBF && spec_is_cont(s[2]) && spec_is_cont(s[3])
                && spec_valid_utf8(s.skip(4))
        } else if b0 < 0xF4 {
            s.len() >= 4 && spec_is_cont(s[1]) && spec_is_cont(s[2]) && spec_is_cont(s[3])
                && spec_valid_utf8(s.skip(4))
        } else if b0 == 0xF4 {
            s.len() >= 4 && 0x80 <= s[1] <= 0x8F && spec_is_cont(s[2]) && spec_is_cont(s[3])
                && spec_valid_utf8(s.skip(4))
        } else {
            false
        }
    }
}

pub fn check_utf8(v: &Vec<u8>) -> (r: bool)
    ensures
        r == spec_valid_utf8(v@),
{
    let n = v.len();
    let mut i: usize = 0;
    proof {
        assert(v@.skip(0) =~= v@);
    }
    while i < n
        invariant
            0 <= i <= n,
            n == v@.len(),
            spec_valid_utf8(v@) == spec_valid_utf8(v@.skip(i as int)),
        decreases n - i,
    {
        let ghost tail = v@.skip(i as int);
        let b0 = v[i];
        proof {
            assert(tail.len() == n - i);
            assert(tail[0] == v@[i as int]);
            assert(forall|m: int| 0 <= m < tail.len() ==> tail[m] == v@[i as int + m]);
        }
        if b0 < 0x80 {
            proof {
                assert(tail.skip(1) =~= v@.skip(i as int + 1));
            }
            i = i + 1;
        } else if b0 < 0xC2 {
            return false;
        } else if b0 < 0xE0 {
            if n - i >= 2 && 0x80 <= v[i + 1] && v[i + 1] <= 0xBF {
                proof {
                    assert(tail.skip(2) =~= v@.skip(i as int + 2));
                }
                i = i + 2;
            } else {
                return false;
            }
        } else if b0 < 0xF0 {
            if n - i >= 3 {
                let b1 = v[i + 1];
                let b2 = v[i + 2];
                let lo: u8 = if b0 == 0xE0 {
                    0xA0
                } else {
                    0x80
                };
                let hi: u8 = if b0 == 0xED {
                    0x9F
                } else {
                    0xBF
                };
                if lo <= b1 && b1 <= hi && 0x80 <= b2 && b2 <= 0xBF {
                    proof {
                        assert(tail.skip(3) =~= v@.skip(i as int + 3));
                    }
                    i = i + 3;
                } else {
                    return false;
                }
            } else {
                return false;
            }
        } else if b0 < 0xF5 {
            if n - i >= 4 {
                let b1 = v[i + 1];
                let b2 = v[i + 2];
                let b3 = v[i + 3];
                let lo: u8 = if b0 == 0xF0 {
                    0x90
                } else {
                    0x80
                };
                let hi: u8 = if b0 == 0xF4 {
                    0x8F
                } else {
                    0xBF
                };
                if lo <= b1 && b1 <= hi && 0x80 <= b2 && b2 <= 0xBF && 0x80 <= b3 && b3 <= 0xBF {
                    proof {
                        assert(tail.skip(4) =~= v@.skip(i as int + 4));
                    }
                    i = i + 4;
                } else {
                    return false;
                }
            } else {
                return false;
            }
        } else {
            return false;
        }
    }
    proof {
        assert(v@.skip(n as int) =~= Seq::<u8>::empty());
    }
    true
}

/// Where the scan for the string terminator lands, starting at `i`:
/// the position of the NUL found in leading position, a truncation when
/// the body ends first (also mid-sequence), or an invalid leading byte.
pub open spec fn spec_scan_name(s: Seq<u8>, i: int) -> Result<int, Mp4Error>
    recommends
        0 <= i,
    decreases s.len() - i,
{
    if i >= s.len() {
        Err(Mp4Error::TruncatedInput)
    } else {
        let b0 = s[i];
        if b0 == 0 {
            Ok(i)
        } else if b0 < 0x80 {
            spec_scan_name(s, i + 1)
        } else if b0 < 0xC0 {
            Err(Mp4Error::InvalidUtf8)
        } else if b0 < 0xE0 {
            if i + 2 <= s.len() {
                spec_scan_name(s, i + 2)
            } else {
                Err(Mp4Error::TruncatedInput)
            }
        } else if b0 < 0xF0 {
            if i + 3 <= s.len() {
                spec_scan_name(s, i + 3)
            } else {
                Err(Mp4Error::TruncatedInput)
            }
        } else if b0 < 0xF8 {
            if i + 4 <= s.len() {
                spec_scan_name(s, i + 4)
            } else {
                Err(Mp4Error::TruncatedInput)
            }
        } else {
            Err(Mp4Error::InvalidUtf8)
        }
    }
}

pub fn scan_name(body: &[u8], start: usize) -> (r: Result<usize, Mp4Error>)
    requires
        start <= body@.len(),
    ensures
        match r {
            Ok(t) => spec_scan_name(body@, start as int) == Ok::<int, Mp4Error>(t as int) && start
                <= t < body@.len() && body@[t as int] == 0,
            Err(e) => spec_scan_name(body@, start as int) == Err::<int, Mp4Error>(e),
        },
{
    let n = body.len();
    let mut i = start;
    while i < n
        invariant
            start <= i,
            n == body@.len(),
            spec_scan_name(body@, start as int) == spec_scan_name(body@, i as int),
        decreases n - i,
    {
        let b0 = body[i];
        if b0 == 0 {
            return Ok(i);
        } else if b0 < 0x80 {
            i = i + 1;
        } else if b0 < 0xC0 {
            return Err(Mp4Error::InvalidUtf8);
        } else if b0 < 0xE0 {
            if n - i >= 2 {
                i = i + 2;
            } else {
                return Err(Mp4Error::TruncatedInput);
            }
        } else if b0 < 0xF0 {
            if n - i >= 3 {
                i = i + 3;
            } else {
                return Err(Mp4Error::TruncatedInput);
            }
        } else if b0 < 0xF8 {
            if n - i >= 4 {
                i = i + 4;
            } else {
                return Err(Mp4Error::TruncatedInput);
            }
        } else {
            return Err(Mp4Error::InvalidUtf8);
        }
    }
    Err(Mp4Error::TruncatedInput)
}

// ---------------------------------------------------------------------------
// Hdlr
// ---------------------------------------------------------------------------

pub open spec fn spec_hdlr_body(b: BoxHdlr) -> Seq<u8> {
    seq![b.version] + spec_be24(b.flags) + b.reserved1@ + b.handler_type@ + b.reserved2@ + b.name@
        + seq![0u8]
}

pub open spec fn spec_hdlr_wf(b: BoxHdlr) -> bool {
    &&& b.flags < 0x1000000
    &&& b.reserved1@.len() == 4
    &&& b.handler_type@.len() == 4
    &&& b.reserved2@.len() == 12
    &&& spec_valid_utf8(b.name@)
}

/// A body parses exactly when, after the fixed 24-byte prefix, the scan
/// finds a terminator, the collected bytes are well-formed UTF-8, and the
/// terminator is the last byte of the body.
pub open spec fn spec_hdlr_ok(body: Seq<u8>) -> Result<(), Mp4Error> {
    match spec_scan_name(body, 24) {
        Err(e) => Err(e),
        Ok(t) => {
            if !spec_valid_utf8(body.subrange(24, t)) {
                Err(Mp4Error::InvalidUtf8)
            } else if t + 1 != body.len() {
                Err(Mp4Error::SizeMismatch)
            } else {
                Ok(())
            }
        },
    }
}

pub fn parse_hdlr(body: &[u8]) -> (r: Result<BoxHdlr, Mp4Error>)
    ensures
        match r {
            Ok(b) => spec_hdlr_ok(body@) is Ok && spec_hdlr_wf(b) && spec_hdlr_body(b) == body@,
            Err(e) => spec_hdlr_ok(body@) == Err::<(), Mp4Error>(e),
        },
{
    let (version, flags, i) = match read_fullbox_header(body, 0) {
        Ok(p) => p,
        Err(e) => {
            proof {
                assert(spec_scan_name(body@, 24) == Err::<int, Mp4Error>(
                    Mp4Error::TruncatedInput,
                ));
            }
            return Err(e);
        },
    };
    let (reserved1, i) = match read_bytes(body, i, 4) {
        Ok(p) => p,
        Err(e) => {
            proof {
                assert(spec_scan_name(body@, 24) == Err::<int, Mp4Error>(
                    Mp4Error::TruncatedInput,
                ));
            }
            return Err(e);
        },
    };
    let (handler_type, i) = match read_bytes(body, i, 4) {
        Ok(p) => p,
        Err(e) => {
            proof {
                assert(spec_scan_name(body@, 24) == Err::<int, Mp4Error>(
                    Mp4Error::TruncatedInput,
                ));
            }
            return Err(e);
        },
    };
    let (reserved2, i) = match read_bytes(body, i, 12) {
        Ok(p) => p,
        Err(e) => {
            proof {
                assert(spec_scan_name(body@, 24) == Err::<int, Mp4Error>(
                    Mp4Error::TruncatedInput,
                ));
            }
            return Err(e);
        },
    };
    let t = match scan_name(body, i) {
        Ok(t) => t,
        Err(e) => return Err(e),
    };
    let (name, _i2) = match read_bytes(body, i, t - i) {
        Ok(p) => p,
        Err(e) => return Err(e),
    };
    if !check_utf8(&name) {
        return Err(Mp4Error::InvalidUtf8);
    }
    let blen = body.len();
    if t + 1 != blen {
        return Err(Mp4Error::SizeMismatch);
    }
    let b = BoxHdlr { version, flags, reserved1, handler_type, reserved2, name };
    proof {
        let s = body@;
        assert(seq![0u8] =~= s.subrange(t as int, t as int + 1));
        lemma_subrange_glue(s, 0, 4, 8);
        lemma_subrange_glue(s, 0, 8, 12);
        lemma_subrange_glue(s, 0, 12, 24);
        lemma_subrange_glue(s, 0, 24, t as int);
        lemma_subrange_glue(s, 0, t as int, t as int + 1);
        lemma_subrange_all(s);
    }
    Ok(b)
}

pub fn write_hdlr(b: &BoxHdlr, out: &mut Vec<u8>)
    ensures
        final(out)@ == old(out)@ + spec_hdlr_body(*b),
{
    push_u8(out, b.version);
    push_u24(out, b.flags);
    push_bytes(out, &b.reserved1);
    push_bytes(out, &b.handler_type);
    push_bytes(out, &b.reserved2);
    push_bytes(out, &b.name);
    push_u8(out, 0);
    proof {
        assert(out@ =~= old(out)@ + spec_hdlr_body(*b));
    }
}

} // verus!
