use git_index_write::entry::{Entry, Mode};
use git_index_write::extension::{end_of_index_entry_sig, tree_sig, Extensions};
use git_index_write::revision::Kind;
use git_index_write::write::{be_bytes, entries, header, CountBytes, Options, State, Version, WriteError};

const TREE_SHA1: [u8; 20] = [
    28, 129, 56, 121, 225, 96, 90, 80, 72, 103, 139, 168, 133, 66, 239, 118, 116, 12, 68, 99,
];

fn entry(path: &str, record: &[u8]) -> Entry {
    Entry { path: path.as_bytes().to_vec(), mode: Mode::File, record: record.to_vec() }
}

fn options(extensions: Extensions) -> Options {
    Options { extensions, ..Default::default() }
}

fn write(state: &State, opts: Options) -> Result<Vec<u8>, WriteError> {
    let mut out = Vec::new();
    state.write_to(&mut out, opts).map(|_| out)
}

#[test]
fn should_write_follows_the_policy() {
    assert_eq!(Extensions::All.should_write(*b"ABCD"), Some(*b"ABCD"));
    assert_eq!(Extensions::Nothing.should_write(tree_sig()), None);
    let given = Extensions::Given { tree_cache: true, end_of_index_entry: false };
    assert_eq!(given.should_write(*b"TREE"), Some(*b"TREE"));
    assert_eq!(given.should_write(end_of_index_entry_sig()), None);
    assert_eq!(given.should_write(*b"ABCD"), None);
    let given = Extensions::Given { tree_cache: false, end_of_index_entry: true };
    assert_eq!(given.should_write(*b"TREE"), None);
    assert_eq!(given.should_write(*b"EOIE"), Some(*b"EOIE"));
    assert!(matches!(Extensions::default(), Extensions::All));
}

#[test]
fn big_endian_bytes() {
    assert_eq!(be_bytes(0x0102_0304), [1, 2, 3, 4]);
    assert_eq!(be_bytes(u32::MAX), [255, 255, 255, 255]);
}

#[test]
fn header_is_magic_version_and_count() {
    let mut out = CountBytes::new(Vec::new());
    assert_eq!(header(&mut out, Version::V2, 3), Ok(12));
    assert_eq!(out.inner, b"DIRC\x00\x00\x00\x02\x00\x00\x00\x03".to_vec());
    let mut out = CountBytes::new(vec![9]);
    assert_eq!(header(&mut out, Version::V4, 258), Ok(12));
    assert_eq!(out.inner, b"\x09DIRC\x00\x00\x00\x04\x00\x00\x01\x02".to_vec());
}

#[test]
fn count_bytes_refuses_to_pass_four_gigabytes() {
    let mut out = CountBytes { count: u32::MAX - 1, inner: Vec::new() };
    assert_eq!(out.write(&[1, 2]), Err(WriteError::TooLarge));
    assert_eq!(out.count, u32::MAX - 1);
    assert!(out.inner.is_empty());
    assert_eq!(out.write(&[1]), Ok(1));
    assert_eq!(out.count, u32::MAX);
}

#[test]
fn entries_are_padded_to_eight_bytes_after_the_header() {
    let state = State { entries: vec![entry("a", b"12345"), entry("b", b"abcdefgh"), entry("c", b"x")], tree: None };
    let mut out = CountBytes::new(Vec::new());
    out.write(b"HEADER").unwrap();
    assert_eq!(entries(&mut out, &state, 6), Ok(6 + 24));
    assert_eq!(out.inner, b"HEADER12345\0\0\0abcdefghx\0\0\0\0\0\0\0".to_vec());
}

#[test]
fn entry_count_and_alignment_of_the_whole_index() {
    let state = State { entries: vec![entry("a", b"123"), entry("b", b"1234567890")], tree: None };
    let bytes = write(&state, Options::default()).unwrap();
    assert_eq!(&bytes[8..12], &[0, 0, 0, 2]);
    assert_eq!((bytes.len() - 12) % 8, 0);
    assert_eq!(bytes.len(), 12 + 8 + 16);
}

#[test]
fn empty_state_writes_header_only_and_no_trailer() {
    let state = State { entries: Vec::new(), tree: None };
    assert_eq!(write(&state, Options::default()).unwrap(), b"DIRC\0\0\0\x02\0\0\0\0".to_vec());
    let state = State { entries: Vec::new(), tree: Some(b"abc".to_vec()) };
    let all = write(&state, options(Extensions::All)).unwrap();
    assert_eq!(all, b"DIRC\0\0\0\x02\0\0\0\0TREE\0\0\0\x03abc".to_vec());
}

#[test]
fn policy_nothing_writes_no_extension() {
    let state = State { entries: vec![entry("a", b"12345678")], tree: Some(b"abc".to_vec()) };
    let bytes = write(&state, options(Extensions::Nothing)).unwrap();
    assert_eq!(bytes, b"DIRC\0\0\0\x02\0\0\0\x0112345678".to_vec());
}

#[test]
fn policy_all_writes_tree_and_end_of_index_entry() {
    let state = State { entries: vec![entry("a", b"12345678")], tree: Some(b"abc".to_vec()) };
    let bytes = write(&state, options(Extensions::All)).unwrap();
    let mut expected = b"DIRC\0\0\0\x02\0\0\0\x0112345678TREE\0\0\0\x03abcEOIE\0\0\0\x18\0\0\0\x14".to_vec();
    expected.extend_from_slice(&TREE_SHA1);
    assert_eq!(bytes, expected);
}

#[test]
fn given_policy_without_end_of_index_entry_stops_after_the_tree() {
    let state = State { entries: vec![entry("a", b"1")], tree: Some(b"abc".to_vec()) };
    let opts = options(Extensions::Given { tree_cache: true, end_of_index_entry: false });
    let bytes = write(&state, opts).unwrap();
    assert_eq!(bytes, b"DIRC\0\0\0\x02\0\0\0\x011\0\0\0\0\0\0\0TREE\0\0\0\x03abc".to_vec());
}

#[test]
fn no_trailer_without_another_extension() {
    let state = State { entries: vec![entry("a", b"1")], tree: None };
    let bytes = write(&state, options(Extensions::All)).unwrap();
    assert_eq!(bytes.len(), 20);
}

#[test]
fn only_version_two_is_written() {
    let state = State { entries: vec![entry("a", b"1")], tree: None };
    let mut out = vec![7u8];
    let opts = Options { version: Version::V3, ..Default::default() };
    assert_eq!(state.write_to(&mut out, opts), Err(WriteError::UnsupportedVersion));
    assert_eq!(out, vec![7u8]);
    let opts = Options { version: Version::V4, ..Default::default() };
    assert_eq!(state.write_to(&mut out, opts), Err(WriteError::UnsupportedVersion));
}

#[test]
fn write_appends_to_what_is_there() {
    let state = State { entries: Vec::new(), tree: None };
    let mut out = b"xy".to_vec();
    state.write_to(&mut out, Options::default()).unwrap();
    assert_eq!(out, b"xyDIRC\0\0\0\x02\0\0\0\0".to_vec());
}

#[test]
fn revision_kinds_differ() {
    assert_ne!(Kind::IncludeReachableFromParents, Kind::ExcludeReachableFromParents);
}
