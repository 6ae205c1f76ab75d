//! The typed box tree: one struct per registered box kind, a tagged union
//! over all of them, and the registry of 4-byte tags.
//!
//! Tags are compared as exact 4-byte patterns. Throughout the crate a tag
//! is carried as a `u32` that packs the four raw bytes in order, first byte
//! in the most significant position, so that writing the `u32` big-endian
//! reproduces the raw bytes.
//!
//! Full boxes keep the `(version, flags)` pair read from their header so an
//! identical header can be reconstructed on write. Fields gated by a guard
//! over `(version, flags, prior fields)` are stored as `Option`; fields
//! whose width is selected by the version are stored as [`Either`], the
//! wide reading in `A`.

use vstd::prelude::*;

use crate::either::Either;

verus! {

pub const TAG_MOOF: u32 = 0x6D6F6F66;

pub const TAG_MFHD: u32 = 0x6D666864;

pub const TAG_TRAF: u32 = 0x74726166;

pub const TAG_TFHD: u32 = 0x74666864;

pub const TAG_TFDT: u32 = 0x74666474;

pub const TAG_SENC: u32 = 0x73656E63;

pub const TAG_SAIZ: u32 = 0x7361697A;

pub const TAG_SAIO: u32 = 0x7361696F;

pub const TAG_TRUN: u32 = 0x7472756E;

pub const TAG_MDAT: u32 = 0x6D646174;

pub const TAG_FTYP: u32 = 0x66747970;

pub const TAG_MOOV: u32 = 0x6D6F6F76;

pub const TAG_MVHD: u32 = 0x6D766864;

pub const TAG_TRAK: u32 = 0x7472616B;

pub const TAG_TKHD: u32 = 0x746B6864;

pub const TAG_MDIA: u32 = 0x6D646961;

pub const TAG_MDHD: u32 = 0x6D646864;

pub const TAG_HDLR: u32 = 0x68646C72;

pub const TAG_MINF: u32 = 0x6D696E66;

pub const TAG_SMHD: u32 = 0x736D6864;

pub const TAG_DINF: u32 = 0x64696E66;

pub const TAG_DREF: u32 = 0x64726566;

pub const TAG_STBL: u32 = 0x7374626C;

pub const TAG_STSD: u32 = 0x73747364;

pub const TAG_STTS: u32 = 0x73747473;

pub const TAG_STSC: u32 = 0x73747363;

pub const TAG_STSZ: u32 = 0x7374737A;

pub const TAG_STCO: u32 = 0x7374636F;

pub const TAG_UDTA: u32 = 0x75647461;

pub const TAG_MVEX: u32 = 0x6D766578;

pub const TAG_TREX: u32 = 0x74726578;

pub const TAG_PSSH: u32 = 0x70737368;

pub const TAG_FREE: u32 = 0x66726565;

pub const TAG_EDTS: u32 = 0x65647473;

pub const TAG_SGPD: u32 = 0x73677064;

pub const TAG_SBGP: u32 = 0x73626770;

/// A pure container: the whole body is a sequence of child boxes.
#[derive(Debug, PartialEq, Eq)]
pub struct BoxContainer {
    pub data: Vec<Mp4Box>,
}

/// An unmodeled body kept verbatim: a lossless pass-through.
#[derive(Debug, PartialEq, Eq)]
pub struct BoxRaw {
    pub data: Vec<u8>,
}

#[derive(Debug, PartialEq, Eq)]
pub struct BoxMfhd {
    pub version: u8,
    pub flags: u32,
    pub seq_num: u32,
}

#[derive(Debug, PartialEq, Eq)]
pub struct BoxTfhd {
    pub version: u8,
    pub flags: u32,
    pub track_id: u32,
    /// Present exactly when `flags & 0x000001 != 0`.
    pub base_data_offset: Option<u64>,
    /// Present exactly when `flags & 0x000002 != 0`.
    pub sample_description_index: Option<u32>,
    /// Present exactly when `flags & 0x000008 != 0`.
    pub default_sample_duration: Option<u32>,
    /// Present exactly when `flags & 0x000010 != 0`.
    pub default_sample_size: Option<u32>,
    /// Present exactly when `flags & 0x000020 != 0`.
    pub default_sample_flags: Option<u32>,
}

#[derive(Debug, PartialEq, Eq)]
pub struct BoxTfdt {
    pub version: u8,
    pub flags: u32,
    pub base_media_decode_time: u64,
}

#[derive(Debug, PartialEq, Eq)]
pub struct SencSubsample {
    pub clear_bytes: u16,
    pub cipher_bytes: u32,
}

#[derive(Debug, PartialEq, Eq)]
pub struct SencSample {
    /// Always eight bytes.
    pub iv: Vec<u8>,
    /// Present exactly when `flags & 0x000002 != 0`.
    pub subsample_count: Option<u16>,
    /// Present under the same guard; holds `subsample_count` entries.
    pub subsamples: Option<Vec<SencSubsample>>,
}

#[derive(Debug, PartialEq, Eq)]
pub struct BoxSenc {
    pub version: u8,
    pub flags: u32,
    pub sample_count: u32,
    pub samples: Vec<SencSample>,
}

#[derive(Debug, PartialEq, Eq)]
pub struct BoxSaiz {
    pub version: u8,
    pub flags: u32,
    /// Present exactly when `flags & 0x000001 != 0`.
    pub aux_info_type: Option<u32>,
    /// Present exactly when `flags & 0x000001 != 0`.
    pub aux_info_type_parameter: Option<u32>,
    pub default_sample_info_size: u8,
    pub sample_count: u32,
    /// Present exactly when `default_sample_info_size == 0`.
    pub sample_info_size: Option<u8>,
}

#[derive(Debug, PartialEq, Eq)]
pub struct SaioEntry {
    /// 64-bit when `version == 1`, 32-bit otherwise.
    pub offset: Either<u64, u32>,
}

#[derive(Debug, PartialEq, Eq)]
pub struct BoxSaio {
    pub version: u8,
    pub flags: u32,
    /// Present exactly when `flags & 0x000001 != 0`.
    pub aux_info_type: Option<u32>,
    /// Present exactly when `flags & 0x000001 != 0`.
    pub aux_info_type_parameter: Option<u32>,
    pub offset_count: u32,
    pub offsets: Vec<SaioEntry>,
}

#[derive(Debug, PartialEq, Eq)]
pub struct TrunSample {
    /// Present exactly when `flags & 0x000100 != 0`.
    pub sample_duration: Option<u32>,
    /// Present exactly when `flags & 0x000200 != 0`.
    pub sample_size: Option<u32>,
    /// Present exactly when `flags & 0x000400 != 0`.
    pub sample_flags: Option<u32>,
    /// Present exactly when `flags & 0x000800 != 0`;
    /// signed when `version == 1`, unsigned otherwise.
    pub sample_composition_time_offset: Option<Either<i32, u32>>,
}

#[derive(Debug, PartialEq, Eq)]
pub struct BoxTrun {
    pub version: u8,
    pub flags: u32,
    pub sample_count: u32,
    /// Present exactly when `flags & 0x000001 != 0`.
    pub data_offset: Option<i32>,
    /// Present exactly when `flags & 0x000004 != 0`.
    pub first_sample_flags: Option<u32>,
    pub samples: Vec<TrunSample>,
}

#[derive(Debug, PartialEq, Eq)]
pub struct BoxFtyp {
    /// Always four bytes.
    pub major_brand: Vec<u8>,
    pub minor_version: u32,
    /// The trailing 4-byte brand codes, flattened in order; the length is
    /// always a multiple of four.
    pub compatible_brands: Vec<u8>,
}

#[derive(Debug, PartialEq, Eq)]
pub struct BoxMvhd {
    pub version: u8,
    pub flags: u32,
    pub creation_time: Either<u64, u32>,
    pub modification_time: Either<u64, u32>,
    pub timescale: u32,
    pub duration: Either<u64, u32>,
    pub rate: i32,
    pub volume: i16,
    /// Always ten bytes.
    pub reserved: Vec<u8>,
    /// Always nine entries.
    pub matrix: Vec<i32>,
    /// Always six entries.
    pub pre_defined: Vec<u32>,
    pub next_track_id: u32,
}

#[derive(Debug, PartialEq, Eq)]
pub struct BoxTkhd {
    pub version: u8,
    pub flags: u32,
    pub creation_time: Either<u64, u32>,
    pub modification_time: Either<u64, u32>,
    pub track_id: u32,
    /// Always four bytes.
    pub reserved: Vec<u8>,
    pub duration: Either<u64, u32>,
    /// Always eight bytes.
    pub reserved1: Vec<u8>,
    pub layer: i16,
    pub alternate_group: i16,
    pub volume: i16,
    /// Always two bytes.
    pub reserved2: Vec<u8>,
    /// Always nine entries.
    pub matrix: Vec<i32>,
    pub width: u32,
    pub height: u32,
}

#[derive(Debug, PartialEq, Eq)]
pub struct BoxMdhd {
    pub version: u8,
    pub flags: u32,
    pub creation_time: Either<u64, u32>,
    pub modification_time: Either<u64, u32>,
    pub timescale: u32,
    pub duration: Either<u64, u32>,
    pub language: u16,
    /// Always two bytes.
    pub reserved1: Vec<u8>,
}

#[derive(Debug, PartialEq, Eq)]
pub struct BoxHdlr {
    pub version: u8,
    pub flags: u32,
    /// Always four bytes.
    pub reserved1: Vec<u8>,
    /// Always four bytes.
    pub handler_type: Vec<u8>,
    /// Always twelve bytes.
    pub reserved2: Vec<u8>,
    /// Well-formed UTF-8 without the NUL terminator; the terminator is
    /// consumed on read and re-emitted on write.
    pub name: Vec<u8>,
}

#[derive(Debug, PartialEq, Eq)]
pub struct BoxSmhd {
    pub version: u8,
    pub flags: u32,
    pub balance: i16,
    /// Always two bytes.
    pub reserved1: Vec<u8>,
}

#[derive(Debug, PartialEq, Eq)]
pub struct SttsEntry {
    pub sample_count: u32,
    pub sample_delta: u32,
}

#[derive(Debug, PartialEq, Eq)]
pub struct BoxStts {
    pub version: u8,
    pub flags: u32,
    pub entry_count: u32,
    pub entries: Vec<SttsEntry>,
}

#[derive(Debug, PartialEq, Eq)]
pub struct StscEntry {
    pub first_chunk: u32,
    pub samples_per_chunk: u32,
    pub sample_description_index: u32,
}

#[derive(Debug, PartialEq, Eq)]
pub struct BoxStsc {
    pub version: u8,
    pub flags: u32,
    pub entry_count: u32,
    pub entries: Vec<StscEntry>,
}

#[derive(Debug, PartialEq, Eq)]
pub struct StszEntry {
    pub size: u32,
}

#[derive(Debug, PartialEq, Eq)]
pub struct BoxStsz {
    pub version: u8,
    pub flags: u32,
    pub sample_size: u32,
    pub sample_count: u32,
    /// Present exactly when `sample_size == 0`; holds `sample_count` entries.
    pub entry_size: Option<Vec<StszEntry>>,
}

#[derive(Debug, PartialEq, Eq)]
pub struct StcoEntry {
    pub offset: u32,
}

#[derive(Debug, PartialEq, Eq)]
pub struct BoxStco {
    pub version: u8,
    pub flags: u32,
    pub entry_count: u32,
    pub chunk_offset: Vec<StcoEntry>,
}

#[derive(Debug, PartialEq, Eq)]
pub struct BoxTrex {
    pub version: u8,
    pub flags: u32,
    pub track_id: u32,
    pub default_sample_description_index: u32,
    pub default_sample_duration: u32,
    pub default_sample_size: u32,
    pub default_sample_flags: u32,
}

/// Tagged union over every registered box kind.
#[derive(Debug, PartialEq, Eq)]
pub enum Mp4Box {
    Moof(BoxContainer),
    Mfhd(BoxMfhd),
    Traf(BoxContainer),
    Tfhd(BoxTfhd),
    Tfdt(BoxTfdt),
    Senc(BoxSenc),
    Saiz(BoxSaiz),
    Saio(BoxSaio),
    Trun(BoxTrun),
    Mdat(BoxRaw),
    Ftyp(BoxFtyp),
    Moov(BoxContainer),
    Mvhd(BoxMvhd),
    Trak(BoxContainer),
    Tkhd(BoxTkhd),
    Mdia(BoxContainer),
    Mdhd(BoxMdhd),
    Hdlr(BoxHdlr),
    Minf(BoxContainer),
    Smhd(BoxSmhd),
    Dinf(BoxContainer),
    Dref(BoxRaw),
    Stbl(BoxContainer),
    Stsd(BoxRaw),
    Stts(BoxStts),
    Stsc(BoxStsc),
    Stsz(BoxStsz),
    Stco(BoxStco),
    Udta(BoxRaw),
    Mvex(BoxContainer),
    Trex(BoxTrex),
    Pssh(BoxRaw),
    Free(BoxRaw),
    Edts(BoxRaw),
    Sgpd(BoxRaw),
    Sbgp(BoxRaw),
}

/// The 4-byte tag of a box, packed into a `u32` in raw byte order.
pub open spec fn spec_tag_of(b: Mp4Box) -> u32 {
    match b {
        Mp4Box::Moof(_) => TAG_MOOF,
        Mp4Box::Mfhd(_) => TAG_MFHD,
        Mp4Box::Traf(_) => TAG_TRAF,
        Mp4Box::Tfhd(_) => TAG_TFHD,
        Mp4Box::Tfdt(_) => TAG_TFDT,
        Mp4Box::Senc(_) => TAG_SENC,
        Mp4Box::Saiz(_) => TAG_SAIZ,
        Mp4Box::Saio(_) => TAG_SAIO,
        Mp4Box::Trun(_) => TAG_TRUN,
        Mp4Box::Mdat(_) => TAG_MDAT,
        Mp4Box::Ftyp(_) => TAG_FTYP,
        Mp4Box::Moov(_) => TAG_MOOV,
        Mp4Box::Mvhd(_) => TAG_MVHD,
        Mp4Box::Trak(_) => TAG_TRAK,
        Mp4Box::Tkhd(_) => TAG_TKHD,
        Mp4Box::Mdia(_) => TAG_MDIA,
        Mp4Box::Mdhd(_) => TAG_MDHD,
        Mp4Box::Hdlr(_) => TAG_HDLR,
        Mp4Box::Minf(_) => TAG_MINF,
        Mp4Box::Smhd(_) => TAG_SMHD,
        Mp4Box::Dinf(_) => TAG_DINF,
        Mp4Box::Dref(_) => TAG_DREF,
        Mp4Box::Stbl(_) => TAG_STBL,
        Mp4Box::Stsd(_) => TAG_STSD,
        Mp4Box::Stts(_) => TAG_STTS,
        Mp4Box::Stsc(_) => TAG_STSC,
        Mp4Box::Stsz(_) => TAG_STSZ,
        Mp4Box::Stco(_) => TAG_STCO,
        Mp4Box::Udta(_) => TAG_UDTA,
        Mp4Box::Mvex(_) => TAG_MVEX,
        Mp4Box::Trex(_) => TAG_TREX,
        Mp4Box::Pssh(_) => TAG_PSSH,
        Mp4Box::Free(_) => TAG_FREE,
        Mp4Box::Edts(_) => TAG_EDTS,
        Mp4Box::Sgpd(_) => TAG_SGPD,
        Mp4Box::Sbgp(_) => TAG_SBGP,
    }
}

pub fn tag_of(b: &Mp4Box) -> (t: u32)
    ensures
        t == spec_tag_of(*b),
{
    match b {
        Mp4Box::Moof(_) => TAG_MOOF,
        Mp4Box::Mfhd(_) => TAG_MFHD,
        Mp4Box::Traf(_) => TAG_TRAF,
        Mp4Box::Tfhd(_) => TAG_TFHD,
        Mp4Box::Tfdt(_) => TAG_TFDT,
        Mp4Box::Senc(_) => TAG_SENC,
        Mp4Box::Saiz(_) => TAG_SAIZ,
        Mp4Box::Saio(_) => TAG_SAIO,
        Mp4Box::Trun(_) => TAG_TRUN,
        Mp4Box::Mdat(_) => TAG_MDAT,
        Mp4Box::Ftyp(_) => TAG_FTYP,
        Mp4Box::Moov(_) => TAG_MOOV,
        Mp4Box::Mvhd(_) => TAG_MVHD,
        Mp4Box::Trak(_) => TAG_TRAK,
        Mp4Box::Tkhd(_) => TAG_TKHD,
        Mp4Box::Mdia(_) => TAG_MDIA,
        Mp4Box::Mdhd(_) => TAG_MDHD,
        Mp4Box::Hdlr(_) => TAG_HDLR,
        Mp4Box::Minf(_) => TAG_MINF,
        Mp4Box::Smhd(_) => TAG_SMHD,
        Mp4Box::Dinf(_) => TAG_DINF,
        Mp4Box::Dref(_) => TAG_DREF,
        Mp4Box::Stbl(_) => TAG_STBL,
        Mp4Box::Stsd(_) => TAG_STSD,
        Mp4Box::Stts(_) => TAG_STTS,
        Mp4Box::Stsc(_) => TAG_STSC,
        Mp4Box::Stsz(_) => TAG_STSZ,
        Mp4Box::Stco(_) => TAG_STCO,
        Mp4Box::Udta(_) => TAG_UDTA,
        Mp4Box::Mvex(_) => TAG_MVEX,
        Mp4Box::Trex(_) => TAG_TREX,
        Mp4Box::Pssh(_) => TAG_PSSH,
        Mp4Box::Free(_) => TAG_FREE,
        Mp4Box::Edts(_) => TAG_EDTS,
        Mp4Box::Sgpd(_) => TAG_SGPD,
        Mp4Box::Sbgp(_) => TAG_SBGP,
    }
}

} // verus!
