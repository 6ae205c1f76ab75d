use bmf_parse::errors::Mp4Error;
use bmf_parse::find_box;
use bmf_parse::find_box_mut;
use bmf_parse::list_box_tree;
use bmf_parse::parse_mp4;
use bmf_parse::types::Mp4Box;
use bmf_parse::write_mp4;

fn u32be(v: &mut Vec<u8>, x: u32) {
    v.extend_from_slice(&x.to_be_bytes());
}

fn u64be(v: &mut Vec<u8>, x: u64) {
    v.extend_from_slice(&x.to_be_bytes());
}

fn boxed(tag: &[u8; 4], body: &[u8]) -> Vec<u8> {
    let mut v = Vec::new();
    u32be(&mut v, (body.len() + 8) as u32);
    v.extend_from_slice(tag);
    v.extend_from_slice(body);
    v
}

fn full_boxed(tag: &[u8; 4], version: u8, flags: u32, fields: &[u8]) -> Vec<u8> {
    let mut body = Vec::new();
    body.push(version);
    body.extend_from_slice(&flags.to_be_bytes()[1..]);
    body.extend_from_slice(fields);
    boxed(tag, &body)
}

fn tfdt_bytes(time: u64) -> Vec<u8> {
    let mut f = Vec::new();
    u64be(&mut f, time);
    full_boxed(b"tfdt", 0, 0, &f)
}

/// A forest with a `tfdt` nested inside `moof/traf` and another at top
/// level after the `moof`.
fn two_tfdt_forest() -> Vec<Mp4Box> {
    let deep = tfdt_bytes(111);
    let shallow = tfdt_bytes(222);
    let traf = boxed(b"traf", &deep);
    let moof = boxed(b"moof", &traf);
    let mut input = moof;
    input.extend_from_slice(&shallow);
    parse_mp4(&input).unwrap()
}

#[test]
fn find_scenario_mfhd() {
    let input = vec![
        0x00, 0x00, 0x00, 0x18, b'm', b'o', b'o', b'f', 0x00, 0x00, 0x00, 0x10, b'm', b'f', b'h',
        b'd', 0x00, 0x00, 0x00, 0x00, 0x00, 0x00, 0x00, 0x01,
    ];
    let forest = parse_mp4(&input).unwrap();
    let found = find_box(&forest, b"mfhd").unwrap();
    match found {
        Mp4Box::Mfhd(m) => assert_eq!(m.seq_num, 1),
        other => panic!("expected mfhd, got {:?}", other),
    }
}

#[test]
fn find_first_preorder_match() {
    // Pre-order visits the moof subtree, depth first, before the later
    // top-level sibling: the deep tfdt wins.
    let forest = two_tfdt_forest();
    match find_box(&forest, b"tfdt").unwrap() {
        Mp4Box::Tfdt(t) => assert_eq!(t.base_media_decode_time, 111),
        other => panic!("expected tfdt, got {:?}", other),
    }
}

#[test]
fn find_absent_tag() {
    let forest = two_tfdt_forest();
    assert!(find_box(&forest, b"mvhd").is_none());
    assert!(find_box(&forest, b"xxxx").is_none());
}

#[test]
fn find_container_itself() {
    let forest = two_tfdt_forest();
    match find_box(&forest, b"moof").unwrap() {
        Mp4Box::Moof(_) => (),
        other => panic!("expected moof, got {:?}", other),
    }
}

#[test]
fn find_mut_edits_in_place() {
    let input = vec![
        0x00, 0x00, 0x00, 0x18, b'm', b'o', b'o', b'f', 0x00, 0x00, 0x00, 0x10, b'm', b'f', b'h',
        b'd', 0x00, 0x00, 0x00, 0x00, 0x00, 0x00, 0x00, 0x01,
    ];
    let mut forest = parse_mp4(&input).unwrap();
    match find_box_mut(&mut forest, b"mfhd").unwrap() {
        Mp4Box::Mfhd(m) => m.seq_num = 2,
        other => panic!("expected mfhd, got {:?}", other),
    }
    let rewritten = write_mp4(&forest);
    let mut expected = input.clone();
    expected[23] = 0x02;
    assert_eq!(rewritten, expected);
}

#[test]
fn find_mut_absent_leaves_forest_alone() {
    let mut forest = two_tfdt_forest();
    assert!(find_box_mut(&mut forest, b"mvhd").is_none());
    let listing = list_box_tree(&forest, 0);
    assert_eq!(listing, "moof\n  traf\n    tfdt\ntfdt\n");
}

#[test]
fn size_recomputed_after_edit() {
    // Growing a raw body through the mutable search changes the written
    // size: it is recomputed from the body, never cached.
    let input = boxed(b"free", &[1, 2]);
    let mut forest = parse_mp4(&input).unwrap();
    match find_box_mut(&mut forest, b"free").unwrap() {
        Mp4Box::Free(r) => r.data.extend_from_slice(&[3, 4, 5]),
        other => panic!("expected free, got {:?}", other),
    }
    let rewritten = write_mp4(&forest);
    assert_eq!(rewritten, boxed(b"free", &[1, 2, 3, 4, 5]));
    let reparsed = parse_mp4(&rewritten).unwrap();
    match &reparsed[0] {
        Mp4Box::Free(r) => assert_eq!(r.data, vec![1, 2, 3, 4, 5]),
        other => panic!("expected free, got {:?}", other),
    }
}

#[test]
fn listing_indents_two_spaces_per_depth() {
    let forest = two_tfdt_forest();
    assert_eq!(list_box_tree(&forest, 0), "moof\n  traf\n    tfdt\ntfdt\n");
}

#[test]
fn listing_base_indent_shifts_all_lines() {
    let forest = two_tfdt_forest();
    assert_eq!(
        list_box_tree(&forest, 2),
        "    moof\n      traf\n        tfdt\n    tfdt\n"
    );
}

#[test]
fn listing_of_empty_forest_is_empty() {
    let forest = parse_mp4(&[]).unwrap();
    assert_eq!(list_box_tree(&forest, 0), "");
}

#[test]
fn deep_nesting_roundtrip_and_search() {
    // moov/trak/mdia/minf/stbl with a leaf table at the bottom.
    let mut stco_fields = Vec::new();
    u32be(&mut stco_fields, 1);
    u32be(&mut stco_fields, 4096);
    let stco = full_boxed(b"stco", 0, 0, &stco_fields);
    let stbl = boxed(b"stbl", &stco);
    let minf = boxed(b"minf", &stbl);
    let mdia = boxed(b"mdia", &minf);
    let trak = boxed(b"trak", &mdia);
    let moov = boxed(b"moov", &trak);
    let forest = parse_mp4(&moov).unwrap();
    assert_eq!(write_mp4(&forest), moov);
    match find_box(&forest, b"stco").unwrap() {
        Mp4Box::Stco(t) => {
            assert_eq!(t.entry_count, 1);
            assert_eq!(t.chunk_offset[0].offset, 4096);
        },
        other => panic!("expected stco, got {:?}", other),
    }
    assert_eq!(
        list_box_tree(&forest, 0),
        "moov\n  trak\n    mdia\n      minf\n        stbl\n          stco\n"
    );
}

#[test]
fn error_inside_container_fails_whole_parse() {
    let bad_child = boxed(b"xxxx", &[]);
    let moof = boxed(b"moof", &bad_child);
    assert_eq!(parse_mp4(&moof), Err(Mp4Error::UnknownBoxType(0x78787878)));
}
