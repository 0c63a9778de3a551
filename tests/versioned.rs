use std::sync::Arc;
use versioned::counter::{counter_bytes, counter_result, increment, read_counter};
use versioned::key::{counter_key, field_prefix, key_bounds, version_key, KeyBound};
use versioned::versioned::version_writes;
use versioned::scan::{decode_version, parse_hex_u32, scan_entry, scan_step, version_from_key, Flow, Step};
use versioned::{
    get_value, inc_counter, new_version, set_value, update_value, VersionBound, VersionRange,
    VersionedError,
};

fn temp_tree() -> Arc<sled::Tree> {
    let db = sled::Config::new().temporary(true).open().unwrap();
    Arc::new(db.open_tree("versions").unwrap())
}

fn as_text(b: &[u8]) -> Option<String> {
    String::from_utf8(b.to_vec()).ok()
}

fn upto(v: u32) -> VersionRange {
    VersionRange { start: VersionBound::Unbounded, end: VersionBound::Included(v) }
}

#[test]
fn keys_have_fixed_width_uppercase_hex() {
    assert_eq!(counter_key("users", 7, "ver"), b"users/00000007/ver".to_vec());
    assert_eq!(field_prefix("users", 0xABCDEF, "name"), b"users/00ABCDEF/name/".to_vec());
    assert_eq!(version_key("u", 0xFFFF_FFFF, "f", 10), b"u/FFFFFFFF/f/0000000A".to_vec());
}

#[test]
fn entity_keys_sort_as_ids() {
    let ids: [u32; 6] = [0, 9, 10, 0xFF, 0x100, 0xFFFF_FFFF];
    for w in ids.windows(2) {
        assert!(counter_key("ns", w[0], "f") < counter_key("ns", w[1], "f"));
        assert!(version_key("ns", w[0], "f", 99) < version_key("ns", w[1], "f", 1));
    }
}

#[test]
fn open_bounds_use_sentinels() {
    let prefix = b"a/00000001/f/".to_vec();
    let (lo, hi) = key_bounds(&prefix, &VersionRange::full());
    assert!(matches!(lo, KeyBound::Included(ref k) if k == b"a/00000001/f/00000000"));
    assert!(matches!(hi, KeyBound::Included(ref k) if k == b"a/00000001/f/FFFFFFFF"));
    let r = VersionRange { start: VersionBound::Excluded(2), end: VersionBound::Excluded(0x1F) };
    let (lo, hi) = key_bounds(&prefix, &r);
    assert!(matches!(lo, KeyBound::Excluded(ref k) if k == b"a/00000001/f/00000002"));
    assert!(matches!(hi, KeyBound::Excluded(ref k) if k == b"a/00000001/f/0000001F"));
}

#[test]
fn range_contains_follows_bounds() {
    let r = VersionRange { start: VersionBound::Excluded(2), end: VersionBound::Included(5) };
    assert!(!r.contains(2));
    assert!(r.contains(3));
    assert!(r.contains(5));
    assert!(!r.contains(6));
    assert!(VersionRange::full().contains(u32::MAX));
}

#[test]
fn hex_text_parses_like_from_str_radix() {
    assert_eq!(parse_hex_u32(b"0000000A"), Some(10));
    assert_eq!(parse_hex_u32(b"ffffffff"), Some(u32::MAX));
    assert_eq!(parse_hex_u32(b"+1f"), Some(31));
    assert_eq!(parse_hex_u32(b"000000000001"), Some(1));
    assert_eq!(parse_hex_u32(b""), None);
    assert_eq!(parse_hex_u32(b"+"), None);
    assert_eq!(parse_hex_u32(b"-1"), None);
    assert_eq!(parse_hex_u32(b"100000000"), None);
    assert_eq!(parse_hex_u32(b"12G4"), None);
    for s in ["0", "7f", "DEADBEEF", "+10", "fffffffff", "x1", "+", ""] {
        assert_eq!(parse_hex_u32(s.as_bytes()), u32::from_str_radix(s, 16).ok());
    }
}

#[test]
fn version_decoding_errors() {
    assert!(matches!(decode_version(b"a/b", 4), Err(VersionedError::VersionEmpty)));
    assert!(matches!(decode_version(b"p/\xff\xfe", 2), Err(VersionedError::VersionUtf)));
    assert!(matches!(decode_version(b"p/zz", 2), Err(VersionedError::VersionParse)));
    assert!(matches!(decode_version("p/\u{e9}1".as_bytes(), 2), Err(VersionedError::VersionParse)));
    assert!(matches!(decode_version(b"p/", 2), Err(VersionedError::VersionParse)));
    assert!(matches!(decode_version(b"p/0000001F", 2), Ok(31)));
    assert!(matches!(version_from_key(b"p/0000001F", 2, false), Err(VersionedError::VersionUtf)));
    assert!(matches!(version_from_key(b"p/0000001F", 2, true), Ok(31)));
}

#[test]
fn scan_entry_decisions() {
    let all = VersionRange::full();
    let found: Step<String> = scan_entry(b"p/00000003", b"x", 2, &all, &as_text);
    assert!(matches!(found, Step::Found(3, ref s) if s == "x"));
    let stop: Step<String> = scan_entry(b"p/00000003", b"\xff", 2, &all, &as_text);
    assert!(matches!(stop, Step::Stop));
    let foreign: Step<String> = scan_entry(b"p/0000000Z", b"x", 2, &all, &as_text);
    assert!(matches!(foreign, Step::Skip));
    let outside: Step<String> = scan_entry(b"p/00000003", b"x", 2, &upto(2), &as_text);
    assert!(matches!(outside, Step::Skip));
}

#[test]
fn counter_bytes_are_big_endian() {
    assert_eq!(counter_bytes(0x0102_0304), vec![1, 2, 3, 4]);
    assert_eq!(read_counter(&[0, 0, 1, 0]), Some(256));
    assert_eq!(read_counter(&[0, 1, 0]), None);
    assert_eq!(increment(None), Some(vec![0, 0, 0, 1]));
    assert_eq!(increment(Some(&[0, 0, 0, 255])), Some(vec![0, 0, 1, 0]));
    assert_eq!(increment(Some(&[255, 255, 255, 254])), Some(vec![255, 255, 255, 255]));
    assert_eq!(increment(Some(&[255, 255, 255, 255])), Some(vec![]));
    assert_eq!(increment(Some(&[9, 9])), Some(vec![9, 9]));
    assert!(matches!(counter_result(Ok(Some(vec![0, 0, 0, 5]))), Ok(5)));
    assert!(matches!(counter_result(Ok(Some(vec![255, 255, 255, 255]))), Ok(u32::MAX)));
    assert!(matches!(counter_result(Ok(Some(vec![]))), Err(VersionedError::CounterInvalid)));
    assert!(matches!(counter_result(Ok(None)), Err(VersionedError::CounterInvalid)));
}

#[test]
fn new_version_allocates_distinct_versions() {
    let tree = temp_tree();
    let mut seen = Vec::new();
    for _ in 0..5 {
        let v = new_version(&tree, "ns", 1, "ver", vec![("name", b"x".to_vec())]).unwrap();
        assert!(!seen.contains(&v));
        seen.push(v);
    }
    assert_eq!(seen, vec![1, 2, 3, 4, 5]);
}

#[test]
fn written_value_is_read_back() {
    let tree = temp_tree();
    let v = new_version(&tree, "ns", 7, "ver", vec![("name", b"Alice".to_vec())]).unwrap();
    let got = get_value(&tree, "ns", 7, "name", VersionRange::full(), as_text).unwrap();
    assert_eq!(got, Some((v, "Alice".to_string())));
}

#[test]
fn inclusive_upper_bound_excludes_newer() {
    let tree = temp_tree();
    for (ver, text) in [(1u32, "one"), (2, "two"), (3, "three")] {
        set_value(&tree, "ns", 3, "f", ver, text.as_bytes().to_vec()).unwrap();
    }
    let got = get_value(&tree, "ns", 3, "f", upto(2), as_text).unwrap();
    assert_eq!(got, Some((2, "two".to_string())));
    let below = VersionRange { start: VersionBound::Unbounded, end: VersionBound::Excluded(2) };
    let got = get_value(&tree, "ns", 3, "f", below, as_text).unwrap();
    assert_eq!(got, Some((1, "one".to_string())));
    let got = get_value(&tree, "ns", 3, "f", VersionRange::full(), as_text).unwrap();
    assert_eq!(got, Some((3, "three".to_string())));
}

#[test]
fn no_versions_is_no_value() {
    let tree = temp_tree();
    set_value(&tree, "ns", 4, "other", 1, b"x".to_vec()).unwrap();
    let got = get_value(&tree, "ns", 4, "name", VersionRange::full(), as_text).unwrap();
    assert_eq!(got, None);
}

#[test]
fn undecodable_newest_gives_no_value() {
    let tree = temp_tree();
    set_value(&tree, "ns", 5, "f", 1, b"old".to_vec()).unwrap();
    set_value(&tree, "ns", 5, "f", 2, vec![0xff, 0xfe]).unwrap();
    let got = get_value(&tree, "ns", 5, "f", VersionRange::full(), as_text).unwrap();
    assert_eq!(got, None);
    let got = get_value(&tree, "ns", 5, "f", upto(1), as_text).unwrap();
    assert_eq!(got, Some((1, "old".to_string())));
}

#[test]
fn malformed_keys_are_skipped() {
    let tree = temp_tree();
    set_value(&tree, "ns", 6, "f", 1, b"good".to_vec()).unwrap();
    tree.insert(b"ns/00000006/f/0000000Z".to_vec(), b"bad".to_vec()).unwrap();
    tree.insert(b"ns/00000006/f/0000001\xff".to_vec(), b"bad".to_vec()).unwrap();
    let got = get_value(&tree, "ns", 6, "f", VersionRange::full(), as_text).unwrap();
    assert_eq!(got, Some((1, "good".to_string())));
}

#[test]
fn counter_counts_every_increment_once() {
    let tree = temp_tree();
    let mut seen = Vec::new();
    for _ in 0..100 {
        let v = inc_counter(&tree, "ns", 8, "ver").unwrap();
        assert!(!seen.contains(&v));
        seen.push(v);
    }
    assert_eq!(seen, (1..=100).collect::<Vec<u32>>());
    let stored = tree.get(b"ns/00000008/ver").unwrap().unwrap();
    assert_eq!(stored.as_ref(), &[0, 0, 0, 100]);
}

#[test]
fn counter_continues_from_initial_value() {
    let tree = temp_tree();
    tree.insert(b"ns/00000009/ver".to_vec(), vec![0, 0, 0, 41]).unwrap();
    assert_eq!(inc_counter(&tree, "ns", 9, "ver").unwrap(), 42);
}

#[test]
fn invalid_counter_is_an_error() {
    let tree = temp_tree();
    tree.insert(b"ns/0000000A/ver".to_vec(), vec![1, 2]).unwrap();
    assert!(matches!(inc_counter(&tree, "ns", 10, "ver"), Err(VersionedError::CounterInvalid)));
    tree.insert(b"ns/0000000A/max".to_vec(), vec![255, 255, 255, 254]).unwrap();
    assert!(matches!(inc_counter(&tree, "ns", 10, "max"), Ok(u32::MAX)));
    assert!(matches!(inc_counter(&tree, "ns", 10, "max"), Err(VersionedError::CounterInvalid)));
    assert!(matches!(inc_counter(&tree, "ns", 10, "max"), Err(VersionedError::CounterInvalid)));
}

#[test]
fn update_value_applies_transform() {
    let tree = temp_tree();
    let r = update_value(&tree, "ns", 11, "c", |_old: Option<&[u8]>| Some(b"set".to_vec())).unwrap();
    assert_eq!(r, Some(b"set".to_vec()));
    let r = update_value(&tree, "ns", 11, "c", |_old: Option<&[u8]>| None).unwrap();
    assert_eq!(r, None);
    assert!(tree.get(b"ns/0000000B/c").unwrap().is_none());
}

#[test]
fn set_value_returns_previous() {
    let tree = temp_tree();
    assert_eq!(set_value(&tree, "ns", 12, "f", 1, b"a".to_vec()).unwrap(), None);
    assert_eq!(set_value(&tree, "ns", 12, "f", 1, b"b".to_vec()).unwrap(), Some(b"a".to_vec()));
}

#[test]
fn new_version_writes_every_field() {
    let tree = temp_tree();
    let v = new_version(
        &tree,
        "ns",
        13,
        "ver",
        vec![("name", b"Bob".to_vec()), ("city", b"Oslo".to_vec())],
    )
    .unwrap();
    let name = get_value(&tree, "ns", 13, "name", VersionRange::full(), as_text).unwrap();
    let city = get_value(&tree, "ns", 13, "city", VersionRange::full(), as_text).unwrap();
    assert_eq!(name, Some((v, "Bob".to_string())));
    assert_eq!(city, Some((v, "Oslo".to_string())));
}

#[test]
fn error_descriptions() {
    assert_eq!(VersionedError::CounterInvalid.describe(), "counter is invalid");
    assert_eq!(VersionedError::VersionEmpty.describe(), "key shorter than its prefix");
}

#[test]
fn scan_step_decisions() {
    let all = VersionRange::full();
    let end: Flow<String> = scan_step(None, 2, &all, &as_text);
    assert!(matches!(end, Flow::Done(Ok(None))));
    let entry = Some(Ok((b"p/00000004".to_vec(), b"v".to_vec())));
    let found: Flow<String> = scan_step(entry, 2, &all, &as_text);
    assert!(matches!(found, Flow::Done(Ok(Some((4, ref s)))) if s == "v"));
    let bad = Some(Ok((b"p/00000004".to_vec(), vec![0xff])));
    let stop: Flow<String> = scan_step(bad, 2, &all, &as_text);
    assert!(matches!(stop, Flow::Done(Ok(None))));
    let foreign = Some(Ok((b"p/zz".to_vec(), b"v".to_vec())));
    let skip: Flow<String> = scan_step(foreign, 2, &all, &as_text);
    assert!(matches!(skip, Flow::Continue));
    let newer = Some(Ok((b"p/00000009".to_vec(), b"v".to_vec())));
    let skip: Flow<String> = scan_step(newer, 2, &upto(8), &as_text);
    assert!(matches!(skip, Flow::Continue));
}

#[test]
fn version_writes_lay_out_keys() {
    let w = version_writes("ns", 7, 2, &vec![("name", b"Alice".to_vec()), ("age", vec![30])]);
    assert_eq!(
        w,
        vec![
            (b"ns/00000007/name/00000002".to_vec(), b"Alice".to_vec()),
            (b"ns/00000007/age/00000002".to_vec(), vec![30]),
        ]
    );
    assert!(version_writes("ns", 7, 2, &vec![]).is_empty());
}
