use layerfetch::archive::{parse_archive, ArchiveDecoder, ArchiveEntry, EntryKind};
use layerfetch::errors::FetchError;
use layerfetch::overlay::{overlay, tree_lookup};

/// A 512-byte tar header block with the given name, payload size, type
/// flag and link name.
fn header(name: &str, size: u64, typeflag: u8, linkname: &str) -> Vec<u8> {
    let mut b = vec![0u8; 512];
    b[..name.len()].copy_from_slice(name.as_bytes());
    let oct = format!("{:011o}", size);
    b[124..124 + 11].copy_from_slice(oct.as_bytes());
    b[135] = 0;
    b[156] = typeflag;
    b[157..157 + linkname.len()].copy_from_slice(linkname.as_bytes());
    b
}

fn file_record(name: &str, data: &[u8]) -> Vec<u8> {
    let mut out = header(name, data.len() as u64, b'0', "");
    out.extend_from_slice(data);
    let pad = (512 - data.len() % 512) % 512;
    out.extend(std::iter::repeat(0u8).take(pad));
    out
}

fn end_marker() -> Vec<u8> {
    vec![0u8; 1024]
}

#[test]
fn empty_input_holds_no_entries() {
    let r = parse_archive(&[]).unwrap();
    assert!(r.is_empty());
}

#[test]
fn end_marker_alone_holds_no_entries() {
    let r = parse_archive(&end_marker()).unwrap();
    assert!(r.is_empty());
}

#[test]
fn one_file_entry() {
    let mut bytes = file_record("hello.txt", b"hello");
    bytes.extend(end_marker());
    let r = parse_archive(&bytes).unwrap();
    assert_eq!(r.len(), 1);
    assert_eq!(r[0].path, b"hello.txt".to_vec());
    assert_eq!(r[0].kind, EntryKind::File);
    assert_eq!(r[0].data, b"hello".to_vec());
}

#[test]
fn directory_and_symlink_entries() {
    let mut bytes = header("d", 0, b'5', "");
    bytes.extend(header("lnk", 0, b'2', "target"));
    bytes.extend(end_marker());
    let r = parse_archive(&bytes).unwrap();
    assert_eq!(r.len(), 2);
    assert_eq!(r[0].kind, EntryKind::Directory);
    assert_eq!(r[0].path, b"d".to_vec());
    assert_eq!(r[1].kind, EntryKind::Symlink);
    assert_eq!(r[1].link_target, b"target".to_vec());
}

#[test]
fn archive_without_end_marker_still_decodes() {
    let bytes = file_record("a", b"x");
    let r = parse_archive(&bytes).unwrap();
    assert_eq!(r.len(), 1);
    assert_eq!(r[0].data, b"x".to_vec());
}

#[test]
fn payload_longer_than_one_block() {
    let data = vec![7u8; 600];
    let mut bytes = file_record("big", &data);
    bytes.extend(end_marker());
    let r = parse_archive(&bytes).unwrap();
    assert_eq!(r.len(), 1);
    assert_eq!(r[0].data.len(), 600);
    assert_eq!(r[0].data, data);
}

#[test]
fn truncated_stream_is_archive_error() {
    let bytes = vec![1u8; 200];
    assert!(matches!(
        parse_archive(&bytes),
        Err(FetchError::ArchiveError)
    ));
}

#[test]
fn truncated_payload_is_archive_error() {
    let mut bytes = header("f", 600, b'0', "");
    bytes.extend(vec![0u8; 512]);
    // the header promises 600 payload bytes but only one block follows
    assert!(matches!(
        parse_archive(&bytes),
        Err(FetchError::ArchiveError)
    ));
}

#[test]
fn unreadable_size_field_is_archive_error() {
    let mut b = header("f", 0, b'0', "");
    for i in 124..136 {
        b[i] = b'x';
    }
    assert!(matches!(parse_archive(&b), Err(FetchError::ArchiveError)));
}

#[test]
fn unknown_entry_kinds_are_carried_but_not_applied() {
    let mut bytes = header("h", 0, b'1', "elsewhere");
    bytes.extend(end_marker());
    let r = parse_archive(&bytes).unwrap();
    assert_eq!(r.len(), 1);
    assert_eq!(r[0].kind, EntryKind::Other);
    let tree = overlay(Vec::new(), r);
    assert!(tree_lookup(&tree, &b"h".to_vec()).is_none());
}

#[test]
fn incremental_feeding_matches_whole_buffer_decode() {
    let mut bytes = file_record("a.txt", b"one");
    bytes.extend(file_record("b.txt", b"two"));
    bytes.extend(end_marker());

    let whole = parse_archive(&bytes).unwrap();

    let mut d = ArchiveDecoder::new();
    // feed in ragged chunks that split records mid-block
    for chunk in bytes.chunks(300) {
        d.feed(chunk);
    }
    let streamed = d.finish().unwrap();
    assert_eq!(whole, streamed);
}

#[test]
fn incremental_truncated_stream_fails_at_finish() {
    let bytes = header("f", 600, b'0', "");
    let mut d = ArchiveDecoder::new();
    d.feed(&bytes);
    assert!(matches!(d.finish(), Err(FetchError::ArchiveError)));
}

fn entry_at(tree: &Vec<ArchiveEntry>, path: &[u8]) -> Option<ArchiveEntry> {
    tree_lookup(tree, &path.to_vec()).map(|i| tree[i].clone())
}

#[test]
fn extraction_is_idempotent() {
    let mut bytes = file_record("a.txt", b"one");
    bytes.extend(header("d", 0, b'5', ""));
    bytes.extend(file_record("d/b.txt", b"two"));
    bytes.extend(end_marker());
    let entries = parse_archive(&bytes).unwrap();

    let once = overlay(Vec::new(), entries.clone());
    let twice = overlay(once.clone(), entries.clone());

    for path in [b"a.txt".as_slice(), b"d".as_slice(), b"d/b.txt".as_slice()] {
        assert_eq!(entry_at(&once, path), entry_at(&twice, path));
    }
    assert!(entry_at(&once, b"absent").is_none());
    assert!(entry_at(&twice, b"absent").is_none());
}

#[test]
fn later_entry_overwrites_earlier_path() {
    let mut bytes = file_record("f", b"old");
    bytes.extend(file_record("f", b"new"));
    bytes.extend(end_marker());
    let entries = parse_archive(&bytes).unwrap();
    let tree = overlay(Vec::new(), entries);
    let e = entry_at(&tree, b"f").unwrap();
    assert_eq!(e.data, b"new".to_vec());
}

#[test]
fn disjoint_layers_build_the_same_tree_in_either_order() {
    let mut l1 = file_record("one.txt", b"1");
    l1.extend(end_marker());
    let mut l2 = file_record("two.txt", b"2");
    l2.extend(header("sub", 0, b'5', ""));
    l2.extend(end_marker());

    let e1 = parse_archive(&l1).unwrap();
    let e2 = parse_archive(&l2).unwrap();

    let ab = overlay(overlay(Vec::new(), e1.clone()), e2.clone());
    let ba = overlay(overlay(Vec::new(), e2), e1);

    for path in [
        b"one.txt".as_slice(),
        b"two.txt".as_slice(),
        b"sub".as_slice(),
    ] {
        let x = entry_at(&ab, path);
        let y = entry_at(&ba, path);
        assert!(x.is_some());
        assert_eq!(x, y);
    }
}
