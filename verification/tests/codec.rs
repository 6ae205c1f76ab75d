use bmf_parse::either::Either;
use bmf_parse::errors::Mp4Error;
use bmf_parse::parse_mp4;
use bmf_parse::types::Mp4Box;
use bmf_parse::write_mp4;

fn u32be(v: &mut Vec<u8>, x: u32) {
    v.extend_from_slice(&x.to_be_bytes());
}

fn u16be(v: &mut Vec<u8>, x: u16) {
    v.extend_from_slice(&x.to_be_bytes());
}

fn u64be(v: &mut Vec<u8>, x: u64) {
    v.extend_from_slice(&x.to_be_bytes());
}

/// A whole box: recomputed size, raw tag, body.
fn boxed(tag: &[u8; 4], body: &[u8]) -> Vec<u8> {
    let mut v = Vec::new();
    u32be(&mut v, (body.len() + 8) as u32);
    v.extend_from_slice(tag);
    v.extend_from_slice(body);
    v
}

/// A full box: version byte and 24-bit flags open the body.
fn full_boxed(tag: &[u8; 4], version: u8, flags: u32, fields: &[u8]) -> Vec<u8> {
    let mut body = Vec::new();
    body.push(version);
    body.extend_from_slice(&flags.to_be_bytes()[1..]);
    body.extend_from_slice(fields);
    boxed(tag, &body)
}

fn scenario_bytes() -> Vec<u8> {
    vec![
        0x00, 0x00, 0x00, 0x18, b'm', b'o', b'o', b'f', 0x00, 0x00, 0x00, 0x10, b'm', b'f', b'h',
        b'd', 0x00, 0x00, 0x00, 0x00, 0x00, 0x00, 0x00, 0x01,
    ]
}

#[test]
fn scenario_moof_mfhd() {
    let input = scenario_bytes();
    let forest = parse_mp4(&input).unwrap();
    assert_eq!(forest.len(), 1);
    let moof = match &forest[0] {
        Mp4Box::Moof(c) => c,
        other => panic!("expected moof, got {:?}", other),
    };
    assert_eq!(moof.data.len(), 1);
    match &moof.data[0] {
        Mp4Box::Mfhd(m) => {
            assert_eq!(m.version, 0);
            assert_eq!(m.flags, 0);
            assert_eq!(m.seq_num, 1);
        },
        other => panic!("expected mfhd, got {:?}", other),
    }
    assert_eq!(write_mp4(&forest), input);
}

#[test]
fn truncated_header_before_body() {
    // Fewer than 8 bytes remaining fails before any body read.
    assert_eq!(parse_mp4(&[0x00]), Err(Mp4Error::TruncatedInput));
    assert_eq!(
        parse_mp4(&[0x00, 0x00, 0x00, 0x10, b'm', b'f', b'h']),
        Err(Mp4Error::TruncatedInput)
    );
}

#[test]
fn truncated_body() {
    let mut input = scenario_bytes();
    input.pop();
    assert_eq!(parse_mp4(&input), Err(Mp4Error::TruncatedInput));
}

#[test]
fn declared_size_below_header() {
    let input = [0x00, 0x00, 0x00, 0x04, b'f', b'r', b'e', b'e'];
    assert_eq!(parse_mp4(&input), Err(Mp4Error::TruncatedInput));
}

#[test]
fn unknown_tag_named() {
    let input = boxed(b"xxxx", &[]);
    assert_eq!(parse_mp4(&input), Err(Mp4Error::UnknownBoxType(0x78787878)));
}

#[test]
fn unknown_tag_checked_after_body_read() {
    // An unknown tag whose body is truncated fails as truncation: the
    // body is read before the registry is consulted.
    let input = [0x00, 0x00, 0x00, 0x10, b'x', b'x', b'x', b'x'];
    assert_eq!(parse_mp4(&input), Err(Mp4Error::TruncatedInput));
}

#[test]
fn leftover_body_bytes_are_fatal() {
    // An mfhd whose declared size leaves four bytes after its fields.
    let mut fields = Vec::new();
    u32be(&mut fields, 1);
    u32be(&mut fields, 0xDEAD_BEEF);
    let input = full_boxed(b"mfhd", 0, 0, &fields);
    assert_eq!(parse_mp4(&input), Err(Mp4Error::SizeMismatch));
}

#[test]
fn tfhd_no_flags_all_absent() {
    let mut fields = Vec::new();
    u32be(&mut fields, 7);
    let input = full_boxed(b"tfhd", 0, 0, &fields);
    let forest = parse_mp4(&input).unwrap();
    match &forest[0] {
        Mp4Box::Tfhd(t) => {
            assert_eq!(t.track_id, 7);
            assert_eq!(t.base_data_offset, None);
            assert_eq!(t.sample_description_index, None);
            assert_eq!(t.default_sample_duration, None);
            assert_eq!(t.default_sample_size, None);
            assert_eq!(t.default_sample_flags, None);
        },
        other => panic!("expected tfhd, got {:?}", other),
    }
    assert_eq!(write_mp4(&forest), input);
}

#[test]
fn tfhd_base_offset_takes_eight_extra_bytes() {
    let mut plain = Vec::new();
    u32be(&mut plain, 7);
    let without = full_boxed(b"tfhd", 0, 0, &plain);

    let mut fields = Vec::new();
    u32be(&mut fields, 7);
    u64be(&mut fields, 0x1122_3344_5566_7788);
    let with = full_boxed(b"tfhd", 0, 0x000001, &fields);
    assert_eq!(with.len(), without.len() + 8);

    let forest = parse_mp4(&with).unwrap();
    match &forest[0] {
        Mp4Box::Tfhd(t) => {
            assert_eq!(t.base_data_offset, Some(0x1122_3344_5566_7788));
            assert_eq!(t.sample_description_index, None);
        },
        other => panic!("expected tfhd, got {:?}", other),
    }
    assert_eq!(write_mp4(&forest), with);

    // One byte short of the guarded field is a truncation; one byte past
    // it is a size mismatch.
    let mut short = with.clone();
    short.truncate(with.len() - 1);
    short[3] -= 1;
    assert_eq!(parse_mp4(&short), Err(Mp4Error::TruncatedInput));
    let mut long = Vec::new();
    u32be(&mut long, 7);
    u64be(&mut long, 1);
    long.push(0);
    let long = full_boxed(b"tfhd", 0, 0x000001, &long);
    assert_eq!(parse_mp4(&long), Err(Mp4Error::SizeMismatch));
}

#[test]
fn tfhd_all_flags() {
    let mut fields = Vec::new();
    u32be(&mut fields, 9);
    u64be(&mut fields, 100);
    u32be(&mut fields, 2);
    u32be(&mut fields, 3);
    u32be(&mut fields, 4);
    u32be(&mut fields, 5);
    let input = full_boxed(b"tfhd", 0, 0x00003B, &fields);
    let forest = parse_mp4(&input).unwrap();
    match &forest[0] {
        Mp4Box::Tfhd(t) => {
            assert_eq!(t.base_data_offset, Some(100));
            assert_eq!(t.sample_description_index, Some(2));
            assert_eq!(t.default_sample_duration, Some(3));
            assert_eq!(t.default_sample_size, Some(4));
            assert_eq!(t.default_sample_flags, Some(5));
        },
        other => panic!("expected tfhd, got {:?}", other),
    }
    assert_eq!(write_mp4(&forest), input);
}

fn mvhd_fixed_tail(fields: &mut Vec<u8>) {
    u32be(fields, 0x0001_0000); // rate
    u16be(fields, 0x0100); // volume
    fields.extend_from_slice(&[0u8; 10]); // reserved
    for k in 0..9u32 {
        u32be(fields, k); // matrix
    }
    for _ in 0..6 {
        u32be(fields, 0); // pre_defined
    }
    u32be(fields, 2); // next_track_id
}

#[test]
fn mvhd_version_zero_narrow() {
    let mut fields = Vec::new();
    u32be(&mut fields, 10); // creation_time
    u32be(&mut fields, 11); // modification_time
    u32be(&mut fields, 1000); // timescale
    u32be(&mut fields, 500); // duration
    mvhd_fixed_tail(&mut fields);
    let input = full_boxed(b"mvhd", 0, 0, &fields);
    assert_eq!(input.len(), 108);
    let forest = parse_mp4(&input).unwrap();
    match &forest[0] {
        Mp4Box::Mvhd(m) => {
            assert_eq!(m.creation_time, Either::B(10));
            assert_eq!(m.modification_time, Either::B(11));
            assert_eq!(m.timescale, 1000);
            assert_eq!(m.duration, Either::B(500));
            assert_eq!(m.rate, 0x0001_0000);
            assert_eq!(m.volume, 0x0100);
            assert_eq!(m.matrix, vec![0, 1, 2, 3, 4, 5, 6, 7, 8]);
            assert_eq!(m.next_track_id, 2);
        },
        other => panic!("expected mvhd, got {:?}", other),
    }
    assert_eq!(write_mp4(&forest), input);
}

#[test]
fn mvhd_version_one_wide_by_twelve_bytes() {
    let mut fields = Vec::new();
    u64be(&mut fields, 10);
    u64be(&mut fields, 11);
    u32be(&mut fields, 1000);
    u64be(&mut fields, 500);
    mvhd_fixed_tail(&mut fields);
    let v1 = full_boxed(b"mvhd", 1, 0, &fields);
    assert_eq!(v1.len(), 108 + 12);
    let forest = parse_mp4(&v1).unwrap();
    match &forest[0] {
        Mp4Box::Mvhd(m) => {
            assert_eq!(m.creation_time, Either::A(10));
            assert_eq!(m.modification_time, Either::A(11));
            assert_eq!(m.duration, Either::A(500));
        },
        other => panic!("expected mvhd, got {:?}", other),
    }
    assert_eq!(write_mp4(&forest), v1);
}

#[test]
fn hdlr_name_roundtrip() {
    let mut fields = Vec::new();
    fields.extend_from_slice(&[0u8; 4]);
    fields.extend_from_slice(b"vide");
    fields.extend_from_slice(&[0u8; 12]);
    fields.extend_from_slice("Handler\u{00E9}".as_bytes());
    fields.push(0);
    let input = full_boxed(b"hdlr", 0, 0, &fields);
    let forest = parse_mp4(&input).unwrap();
    match &forest[0] {
        Mp4Box::Hdlr(h) => {
            assert_eq!(h.handler_type, b"vide".to_vec());
            assert_eq!(h.name, "Handler\u{00E9}".as_bytes().to_vec());
        },
        other => panic!("expected hdlr, got {:?}", other),
    }
    assert_eq!(write_mp4(&forest), input);
}

#[test]
fn hdlr_invalid_lead_byte() {
    let mut fields = Vec::new();
    fields.extend_from_slice(&[0u8; 4]);
    fields.extend_from_slice(b"vide");
    fields.extend_from_slice(&[0u8; 12]);
    fields.push(0xFF);
    fields.push(0);
    let input = full_boxed(b"hdlr", 0, 0, &fields);
    assert_eq!(parse_mp4(&input), Err(Mp4Error::InvalidUtf8));
}

#[test]
fn hdlr_invalid_continuation() {
    // The two-byte lead pulls in the NUL as its continuation, so the
    // collected bytes are not well-formed UTF-8.
    let mut fields = Vec::new();
    fields.extend_from_slice(&[0u8; 4]);
    fields.extend_from_slice(b"vide");
    fields.extend_from_slice(&[0u8; 12]);
    fields.push(0xC3);
    fields.push(0x00);
    fields.push(0x00);
    let input = full_boxed(b"hdlr", 0, 0, &fields);
    assert_eq!(parse_mp4(&input), Err(Mp4Error::InvalidUtf8));
}

#[test]
fn hdlr_unterminated_name() {
    let mut fields = Vec::new();
    fields.extend_from_slice(&[0u8; 4]);
    fields.extend_from_slice(b"vide");
    fields.extend_from_slice(&[0u8; 12]);
    fields.extend_from_slice(b"abc");
    let input = full_boxed(b"hdlr", 0, 0, &fields);
    assert_eq!(parse_mp4(&input), Err(Mp4Error::TruncatedInput));
}

#[test]
fn ftyp_trailing_brands() {
    let mut fields = Vec::new();
    fields.extend_from_slice(b"isom");
    u32be(&mut fields, 512);
    fields.extend_from_slice(b"iso2");
    fields.extend_from_slice(b"mp41");
    let input = boxed(b"ftyp", &fields);
    let forest = parse_mp4(&input).unwrap();
    match &forest[0] {
        Mp4Box::Ftyp(f) => {
            assert_eq!(f.major_brand, b"isom".to_vec());
            assert_eq!(f.minor_version, 512);
            assert_eq!(f.compatible_brands, b"iso2mp41".to_vec());
        },
        other => panic!("expected ftyp, got {:?}", other),
    }
    assert_eq!(write_mp4(&forest), input);
}

#[test]
fn ftyp_ragged_brands_are_fatal() {
    let mut fields = Vec::new();
    fields.extend_from_slice(b"isom");
    u32be(&mut fields, 512);
    fields.extend_from_slice(b"is");
    let input = boxed(b"ftyp", &fields);
    assert_eq!(parse_mp4(&input), Err(Mp4Error::SizeMismatch));
}

#[test]
fn stts_table() {
    let mut fields = Vec::new();
    u32be(&mut fields, 2);
    u32be(&mut fields, 100);
    u32be(&mut fields, 1024);
    u32be(&mut fields, 1);
    u32be(&mut fields, 512);
    let input = full_boxed(b"stts", 0, 0, &fields);
    let forest = parse_mp4(&input).unwrap();
    match &forest[0] {
        Mp4Box::Stts(t) => {
            assert_eq!(t.entry_count, 2);
            assert_eq!(t.entries.len(), 2);
            assert_eq!(t.entries[0].sample_count, 100);
            assert_eq!(t.entries[0].sample_delta, 1024);
            assert_eq!(t.entries[1].sample_count, 1);
            assert_eq!(t.entries[1].sample_delta, 512);
        },
        other => panic!("expected stts, got {:?}", other),
    }
    assert_eq!(write_mp4(&forest), input);
}

#[test]
fn stsz_uniform_size_has_no_table() {
    let mut fields = Vec::new();
    u32be(&mut fields, 4096);
    u32be(&mut fields, 3);
    let input = full_boxed(b"stsz", 0, 0, &fields);
    let forest = parse_mp4(&input).unwrap();
    match &forest[0] {
        Mp4Box::Stsz(t) => {
            assert_eq!(t.sample_size, 4096);
            assert_eq!(t.sample_count, 3);
            assert!(t.entry_size.is_none());
        },
        other => panic!("expected stsz, got {:?}", other),
    }
    assert_eq!(write_mp4(&forest), input);
}

#[test]
fn stsz_zero_size_reads_per_sample_table() {
    let mut fields = Vec::new();
    u32be(&mut fields, 0);
    u32be(&mut fields, 2);
    u32be(&mut fields, 111);
    u32be(&mut fields, 222);
    let input = full_boxed(b"stsz", 0, 0, &fields);
    let forest = parse_mp4(&input).unwrap();
    match &forest[0] {
        Mp4Box::Stsz(t) => {
            let entries = t.entry_size.as_ref().unwrap();
            assert_eq!(entries.len(), 2);
            assert_eq!(entries[0].size, 111);
            assert_eq!(entries[1].size, 222);
        },
        other => panic!("expected stsz, got {:?}", other),
    }
    assert_eq!(write_mp4(&forest), input);
}

#[test]
fn saio_offsets_width_follows_version() {
    let mut fields = Vec::new();
    u32be(&mut fields, 2);
    u32be(&mut fields, 40);
    u32be(&mut fields, 80);
    let v0 = full_boxed(b"saio", 0, 0, &fields);
    let forest = parse_mp4(&v0).unwrap();
    match &forest[0] {
        Mp4Box::Saio(s) => {
            assert_eq!(s.offsets.len(), 2);
            assert_eq!(s.offsets[0].offset, Either::B(40));
            assert_eq!(s.offsets[1].offset, Either::B(80));
        },
        other => panic!("expected saio, got {:?}", other),
    }
    assert_eq!(write_mp4(&forest), v0);

    let mut fields = Vec::new();
    u32be(&mut fields, 1);
    u64be(&mut fields, 0x1_0000_0000);
    let v1 = full_boxed(b"saio", 1, 0, &fields);
    let forest = parse_mp4(&v1).unwrap();
    match &forest[0] {
        Mp4Box::Saio(s) => {
            assert_eq!(s.offsets[0].offset, Either::A(0x1_0000_0000));
        },
        other => panic!("expected saio, got {:?}", other),
    }
    assert_eq!(write_mp4(&forest), v1);
}

#[test]
fn trun_per_sample_fields() {
    let mut fields = Vec::new();
    u32be(&mut fields, 2); // sample_count
    u32be(&mut fields, 0x100); // data_offset (flag 0x1)
    u32be(&mut fields, 10); // sample 0 duration
    u32be(&mut fields, 20); // sample 0 size
    u32be(&mut fields, 11); // sample 1 duration
    u32be(&mut fields, 21); // sample 1 size
    let input = full_boxed(b"trun", 0, 0x000301, &fields);
    let forest = parse_mp4(&input).unwrap();
    match &forest[0] {
        Mp4Box::Trun(t) => {
            assert_eq!(t.sample_count, 2);
            assert_eq!(t.data_offset, Some(0x100));
            assert_eq!(t.first_sample_flags, None);
            assert_eq!(t.samples.len(), 2);
            assert_eq!(t.samples[0].sample_duration, Some(10));
            assert_eq!(t.samples[0].sample_size, Some(20));
            assert_eq!(t.samples[0].sample_flags, None);
            assert_eq!(t.samples[1].sample_duration, Some(11));
        },
        other => panic!("expected trun, got {:?}", other),
    }
    assert_eq!(write_mp4(&forest), input);
}

#[test]
fn trun_composition_offset_signed_when_version_one() {
    let mut fields = Vec::new();
    u32be(&mut fields, 1);
    fields.extend_from_slice(&(-5i32).to_be_bytes());
    let v1 = full_boxed(b"trun", 1, 0x000800, &fields);
    let forest = parse_mp4(&v1).unwrap();
    match &forest[0] {
        Mp4Box::Trun(t) => {
            assert_eq!(t.samples[0].sample_composition_time_offset, Some(Either::A(-5)));
        },
        other => panic!("expected trun, got {:?}", other),
    }
    assert_eq!(write_mp4(&forest), v1);

    let mut fields = Vec::new();
    u32be(&mut fields, 1);
    u32be(&mut fields, 5);
    let v0 = full_boxed(b"trun", 0, 0x000800, &fields);
    let forest = parse_mp4(&v0).unwrap();
    match &forest[0] {
        Mp4Box::Trun(t) => {
            assert_eq!(t.samples[0].sample_composition_time_offset, Some(Either::B(5)));
        },
        other => panic!("expected trun, got {:?}", other),
    }
    assert_eq!(write_mp4(&forest), v0);
}

#[test]
fn senc_without_subsamples() {
    let mut fields = Vec::new();
    u32be(&mut fields, 2);
    fields.extend_from_slice(&[1, 2, 3, 4, 5, 6, 7, 8]);
    fields.extend_from_slice(&[9, 10, 11, 12, 13, 14, 15, 16]);
    let input = full_boxed(b"senc", 0, 0, &fields);
    let forest = parse_mp4(&input).unwrap();
    match &forest[0] {
        Mp4Box::Senc(s) => {
            assert_eq!(s.sample_count, 2);
            assert_eq!(s.samples.len(), 2);
            assert_eq!(s.samples[0].iv, vec![1, 2, 3, 4, 5, 6, 7, 8]);
            assert!(s.samples[0].subsample_count.is_none());
            assert!(s.samples[1].subsamples.is_none());
        },
        other => panic!("expected senc, got {:?}", other),
    }
    assert_eq!(write_mp4(&forest), input);
}

#[test]
fn senc_with_subsample_table() {
    let mut fields = Vec::new();
    u32be(&mut fields, 1);
    fields.extend_from_slice(&[1, 2, 3, 4, 5, 6, 7, 8]);
    u16be(&mut fields, 2);
    u16be(&mut fields, 16);
    u32be(&mut fields, 240);
    u16be(&mut fields, 32);
    u32be(&mut fields, 480);
    let input = full_boxed(b"senc", 0, 0x000002, &fields);
    let forest = parse_mp4(&input).unwrap();
    match &forest[0] {
        Mp4Box::Senc(s) => {
            assert_eq!(s.samples[0].subsample_count, Some(2));
            let subs = s.samples[0].subsamples.as_ref().unwrap();
            assert_eq!(subs[0].clear_bytes, 16);
            assert_eq!(subs[0].cipher_bytes, 240);
            assert_eq!(subs[1].clear_bytes, 32);
            assert_eq!(subs[1].cipher_bytes, 480);
        },
        other => panic!("expected senc, got {:?}", other),
    }
    assert_eq!(write_mp4(&forest), input);
}

#[test]
fn raw_kinds_pass_through() {
    let mut input = Vec::new();
    input.extend_from_slice(&boxed(b"free", &[0xAA, 0xBB]));
    input.extend_from_slice(&boxed(b"mdat", &[1, 2, 3, 4, 5]));
    input.extend_from_slice(&boxed(b"stsd", &[9]));
    let forest = parse_mp4(&input).unwrap();
    assert_eq!(forest.len(), 3);
    match &forest[1] {
        Mp4Box::Mdat(r) => assert_eq!(r.data, vec![1, 2, 3, 4, 5]),
        other => panic!("expected mdat, got {:?}", other),
    }
    assert_eq!(write_mp4(&forest), input);
}

#[test]
fn nested_containers_roundtrip() {
    let tfdt = {
        let mut f = Vec::new();
        u64be(&mut f, 0x0102_0304_0506_0708);
        full_boxed(b"tfdt", 0, 0, &f)
    };
    let mfhd = {
        let mut f = Vec::new();
        u32be(&mut f, 42);
        full_boxed(b"mfhd", 0, 0, &f)
    };
    let mut traf_body = Vec::new();
    traf_body.extend_from_slice(&tfdt);
    let traf = boxed(b"traf", &traf_body);
    let mut moof_body = Vec::new();
    moof_body.extend_from_slice(&mfhd);
    moof_body.extend_from_slice(&traf);
    let moof = boxed(b"moof", &moof_body);
    let mut input = moof.clone();
    input.extend_from_slice(&boxed(b"mdat", &[7, 7, 7]));

    let forest = parse_mp4(&input).unwrap();
    assert_eq!(forest.len(), 2);
    assert_eq!(write_mp4(&forest), input);
}

#[test]
fn trex_fields() {
    let mut fields = Vec::new();
    for k in 1..=5u32 {
        u32be(&mut fields, k);
    }
    let input = full_boxed(b"trex", 0, 0, &fields);
    let forest = parse_mp4(&input).unwrap();
    match &forest[0] {
        Mp4Box::Trex(t) => {
            assert_eq!(t.track_id, 1);
            assert_eq!(t.default_sample_description_index, 2);
            assert_eq!(t.default_sample_duration, 3);
            assert_eq!(t.default_sample_size, 4);
            assert_eq!(t.default_sample_flags, 5);
        },
        other => panic!("expected trex, got {:?}", other),
    }
    assert_eq!(write_mp4(&forest), input);
}

#[test]
fn saiz_guarded_fields() {
    let mut fields = Vec::new();
    u32be(&mut fields, 77); // aux_info_type
    u32be(&mut fields, 88); // aux_info_type_parameter
    fields.push(0); // default_sample_info_size
    u32be(&mut fields, 5); // sample_count
    fields.push(4); // sample_info_size (present: default is 0)
    let input = full_boxed(b"saiz", 0, 0x000001, &fields);
    let forest = parse_mp4(&input).unwrap();
    match &forest[0] {
        Mp4Box::Saiz(s) => {
            assert_eq!(s.aux_info_type, Some(77));
            assert_eq!(s.aux_info_type_parameter, Some(88));
            assert_eq!(s.default_sample_info_size, 0);
            assert_eq!(s.sample_count, 5);
            assert_eq!(s.sample_info_size, Some(4));
        },
        other => panic!("expected saiz, got {:?}", other),
    }
    assert_eq!(write_mp4(&forest), input);

    let mut fields = Vec::new();
    fields.push(4);
    u32be(&mut fields, 5);
    let input = full_boxed(b"saiz", 0, 0, &fields);
    let forest = parse_mp4(&input).unwrap();
    match &forest[0] {
        Mp4Box::Saiz(s) => {
            assert_eq!(s.aux_info_type, None);
            assert_eq!(s.sample_info_size, None);
        },
        other => panic!("expected saiz, got {:?}", other),
    }
    assert_eq!(write_mp4(&forest), input);
}

#[test]
fn stsc_table() {
    let mut fields = Vec::new();
    u32be(&mut fields, 1);
    u32be(&mut fields, 1);
    u32be(&mut fields, 30);
    u32be(&mut fields, 1);
    let input = full_boxed(b"stsc", 0, 0, &fields);
    let forest = parse_mp4(&input).unwrap();
    match &forest[0] {
        Mp4Box::Stsc(t) => {
            assert_eq!(t.entry_count, 1);
            assert_eq!(t.entries[0].first_chunk, 1);
            assert_eq!(t.entries[0].samples_per_chunk, 30);
            assert_eq!(t.entries[0].sample_description_index, 1);
        },
        other => panic!("expected stsc, got {:?}", other),
    }
    assert_eq!(write_mp4(&forest), input);
}

#[test]
fn table_count_beyond_body_is_truncation() {
    let mut fields = Vec::new();
    u32be(&mut fields, 1000);
    u32be(&mut fields, 100);
    u32be(&mut fields, 1024);
    let input = full_boxed(b"stts", 0, 0, &fields);
    assert_eq!(parse_mp4(&input), Err(Mp4Error::TruncatedInput));
}

#[test]
fn smhd_balance() {
    let mut fields = Vec::new();
    fields.extend_from_slice(&(-256i16).to_be_bytes());
    fields.extend_from_slice(&[0, 0]);
    let input = full_boxed(b"smhd", 0, 0, &fields);
    let forest = parse_mp4(&input).unwrap();
    match &forest[0] {
        Mp4Box::Smhd(s) => assert_eq!(s.balance, -256),
        other => panic!("expected smhd, got {:?}", other),
    }
    assert_eq!(write_mp4(&forest), input);
}

#[test]
fn mdhd_widths_follow_version() {
    let mut fields = Vec::new();
    u32be(&mut fields, 1);
    u32be(&mut fields, 2);
    u32be(&mut fields, 90000);
    u32be(&mut fields, 3);
    u16be(&mut fields, 0x55C4);
    fields.extend_from_slice(&[0, 0]);
    let v0 = full_boxed(b"mdhd", 0, 0, &fields);
    let forest = parse_mp4(&v0).unwrap();
    match &forest[0] {
        Mp4Box::Mdhd(m) => {
            assert_eq!(m.creation_time, Either::B(1));
            assert_eq!(m.timescale, 90000);
            assert_eq!(m.language, 0x55C4);
        },
        other => panic!("expected mdhd, got {:?}", other),
    }
    assert_eq!(write_mp4(&forest), v0);

    let mut fields = Vec::new();
    u64be(&mut fields, 1);
    u64be(&mut fields, 2);
    u32be(&mut fields, 90000);
    u64be(&mut fields, 3);
    u16be(&mut fields, 0x55C4);
    fields.extend_from_slice(&[0, 0]);
    let v1 = full_boxed(b"mdhd", 1, 0, &fields);
    assert_eq!(v1.len(), v0.len() + 12);
    let forest = parse_mp4(&v1).unwrap();
    match &forest[0] {
        Mp4Box::Mdhd(m) => assert_eq!(m.duration, Either::A(3)),
        other => panic!("expected mdhd, got {:?}", other),
    }
    assert_eq!(write_mp4(&forest), v1);
}

#[test]
fn tkhd_roundtrip() {
    let mut fields = Vec::new();
    u32be(&mut fields, 1); // creation_time
    u32be(&mut fields, 2); // modification_time
    u32be(&mut fields, 3); // track_id
    fields.extend_from_slice(&[0; 4]);
    u32be(&mut fields, 600); // duration
    fields.extend_from_slice(&[0; 8]);
    u16be(&mut fields, 0); // layer
    u16be(&mut fields, 0); // alternate_group
    u16be(&mut fields, 0x0100); // volume
    fields.extend_from_slice(&[0; 2]);
    for k in 0..9u32 {
        u32be(&mut fields, k); // matrix
    }
    u32be(&mut fields, 640 << 16); // width
    u32be(&mut fields, 480 << 16); // height
    let input = full_boxed(b"tkhd", 0, 0x000007, &fields);
    assert_eq!(input.len(), 92);
    let forest = parse_mp4(&input).unwrap();
    match &forest[0] {
        Mp4Box::Tkhd(t) => {
            assert_eq!(t.track_id, 3);
            assert_eq!(t.duration, Either::B(600));
            assert_eq!(t.volume, 0x0100);
            assert_eq!(t.width, 640 << 16);
            assert_eq!(t.height, 480 << 16);
        },
        other => panic!("expected tkhd, got {:?}", other),
    }
    assert_eq!(write_mp4(&forest), input);
}

#[test]
fn senc_truncated_subsample_table() {
    let mut fields = Vec::new();
    u32be(&mut fields, 1);
    fields.extend_from_slice(&[1, 2, 3, 4, 5, 6, 7, 8]);
    u16be(&mut fields, 2);
    u16be(&mut fields, 16);
    u32be(&mut fields, 240);
    // second subsample entry missing
    let input = full_boxed(b"senc", 0, 0x000002, &fields);
    assert_eq!(parse_mp4(&input), Err(Mp4Error::TruncatedInput));
}

#[test]
fn empty_input_is_empty_forest() {
    let forest = parse_mp4(&[]).unwrap();
    assert!(forest.is_empty());
    assert_eq!(write_mp4(&forest), Vec::<u8>::new());
}
