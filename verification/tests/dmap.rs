//! DMAP track metadata.

use openairplay1::dmap::{parse, Metadata};

fn entry(tag: &[u8; 4], payload: &[u8]) -> Vec<u8> {
    let mut out = tag.to_vec();
    out.extend_from_slice(&(payload.len() as u32).to_be_bytes());
    out.extend_from_slice(payload);
    out
}

fn item(entries: &[(&[u8; 4], &[u8])]) -> Vec<u8> {
    let mut inner = Vec::new();
    for (tag, payload) in entries {
        inner.extend_from_slice(&entry(tag, payload));
    }
    entry(b"mlit", &inner)
}

#[test]
fn a_listing_item_names_the_track() {
    let body = item(&[
        (b"mper", &[0u8; 8]),
        (b"minm", b"Title"),
        (b"asar", b"Artist"),
        (b"asal", "\u{c9}tudes".as_bytes()),
    ]);
    assert_eq!(
        parse(&body),
        Some(Metadata {
            title: Some("Title".into()),
            artist: Some("Artist".into()),
            album: Some("\u{c9}tudes".into()),
        })
    );
}

#[test]
fn missing_fields_are_none_and_the_last_of_a_tag_counts() {
    let body = item(&[(b"minm", b"First"), (b"minm", b"Second")]);
    let meta = parse(&body).unwrap();
    assert_eq!(meta.title.as_deref(), Some("Second"));
    assert_eq!(meta.artist, None);
    assert_eq!(meta.album, None);
}

#[test]
fn bytes_that_are_no_text_are_replaced() {
    let body = item(&[(b"minm", &[0x61, 0xff, 0x62])]);
    assert_eq!(parse(&body).unwrap().title.as_deref(), Some("a\u{fffd}b"));
}

#[test]
fn malformed_payloads_describe_no_track() {
    assert_eq!(parse(&[]), None, "no listing item");
    assert_eq!(parse(&entry(b"minm", b"x")), None, "not inside an item");
    let mut truncated = item(&[(b"minm", b"Title")]);
    truncated.pop();
    assert_eq!(parse(&truncated), None);
    let mut trailing = item(&[(b"minm", b"Title")]);
    trailing.push(0);
    assert_eq!(parse(&trailing), None);
    assert_eq!(parse(&entry(b"mlit", &[1, 2, 3])), None);
    assert_eq!(parse(b"mlit\xff\xff\xff\xff"), None);
}
