//! DMAP track metadata: a walk over 4-byte tags with big-endian lengths.
//!
//! A sender pushes one `mlit` listing item per track change; the title, artist
//! and album sit inside it among tags that are of no interest here.

use vstd::prelude::*;

use crate::rtp;
use crate::rtp::read_be32;
use crate::text;
use crate::utf8;
use crate::utf8::from_utf8_lossy;

verus! {

/// What a listing item says about a track.
#[derive(Debug, PartialEq, Eq)]
pub struct Metadata {
    /// Track title (`minm`).
    pub title: Option<String>,
    /// Track artist (`asar`).
    pub artist: Option<String>,
    /// Track album (`asal`).
    pub album: Option<String>,
}

/// One DMAP entry.
pub struct Tagged {
    pub tag: Seq<u8>,
    pub payload: Seq<u8>,
}

/// The entries of a DMAP payload, after those in `seen`; `None` if the bytes
/// are no sequence of complete entries.
pub open spec fn entries_after(bytes: Seq<u8>, seen: Seq<Tagged>) -> Option<Seq<Tagged>>
    decreases bytes.len(),
{
    if bytes.len() == 0 {
        Some(seen)
    } else if bytes.len() < 8 || !(0 <= rtp::be32(bytes, 4) <= bytes.len() - 8) {
        None
    } else {
        let end = 8 + rtp::be32(bytes, 4);
        entries_after(
            bytes.skip(end),
            seen.push(Tagged { tag: bytes.take(4), payload: bytes.subrange(8, end) }),
        )
    }
}

/// The payload of the last entry with this tag.
pub open spec fn last_tagged(entries: Seq<Tagged>, tag: Seq<u8>) -> Option<Seq<u8>>
    decreases entries.len(),
{
    if entries.len() == 0 {
        None
    } else if entries.last().tag == tag {
        Some(entries.last().payload)
    } else {
        last_tagged(entries.drop_last(), tag)
    }
}

/// The payload of the first entry with this tag.
pub open spec fn first_tagged(entries: Seq<Tagged>, tag: Seq<u8>) -> Option<Seq<u8>>
    decreases entries.len(),
{
    if entries.len() == 0 {
        None
    } else if entries[0].tag == tag {
        Some(entries[0].payload)
    } else {
        first_tagged(entries.skip(1), tag)
    }
}

/// `mlit`, the listing item that holds a track's fields.
pub open spec fn tag_mlit() -> Seq<u8> {
    seq![0x6du8, 0x6c, 0x69, 0x74]
}

/// `minm`, the title.
pub open spec fn tag_minm() -> Seq<u8> {
    seq![0x6du8, 0x69, 0x6e, 0x6d]
}

/// `asar`, the artist.
pub open spec fn tag_asar() -> Seq<u8> {
    seq![0x61u8, 0x73, 0x61, 0x72]
}

/// `asal`, the album.
pub open spec fn tag_asal() -> Seq<u8> {
    seq![0x61u8, 0x73, 0x61, 0x6c]
}

/// The fields inside a payload's listing item, if it is well formed and has
/// one.
pub open spec fn track_fields(body: Seq<u8>) -> Option<Seq<Tagged>> {
    match entries_after(body, Seq::empty()) {
        None => None,
        Some(entries) => match first_tagged(entries, tag_mlit()) {
            None => None,
            Some(item) => entries_after(item, Seq::empty()),
        },
    }
}

/// The text of a field, if it is there.
pub open spec fn field_text(fields: Seq<Tagged>, tag: Seq<u8>) -> Option<Seq<char>> {
    match last_tagged(fields, tag) {
        Some(payload) => Some(utf8::utf8_lossy(payload)),
        None => None,
    }
}

impl Metadata {
    /// Whether this is what these fields say.
    pub open spec fn says(self, fields: Seq<Tagged>) -> bool {
        &&& text::optional_text(self.title) == field_text(fields, tag_minm())
        &&& text::optional_text(self.artist) == field_text(fields, tag_asar())
        &&& text::optional_text(self.album) == field_text(fields, tag_asal())
    }
}

/// Whether the fields that describe a track read as what they encode, where
/// they are valid UTF-8.
pub open spec fn reads_exactly(fields: Seq<Tagged>) -> bool {
    &&& last_tagged(fields, tag_minm()) matches Some(p) ==> utf8::reads_exactly(p)
    &&& last_tagged(fields, tag_asar()) matches Some(p) ==> utf8::reads_exactly(p)
    &&& last_tagged(fields, tag_asal()) matches Some(p) ==> utf8::reads_exactly(p)
}

struct Entry<'a> {
    tag: &'a [u8],
    payload: &'a [u8],
}

spec fn tagged<'a>(entries: Seq<Entry<'a>>) -> Seq<Tagged> {
    entries.map_values(|e: Entry<'a>| Tagged { tag: e.tag@, payload: e.payload@ })
}

fn walk<'a>(bytes: &'a [u8]) -> (entries: Option<Vec<Entry<'a>>>)
    ensures
        entries is Some <==> entries_after(bytes@, Seq::empty()) is Some,
        entries is Some ==> tagged(entries->0@) == entries_after(bytes@, Seq::empty())->0,
{
    let mut entries: Vec<Entry<'a>> = Vec::new();
    let mut rest = bytes;
    assert(tagged(entries@) =~= Seq::<Tagged>::empty());
    while rest.len() > 0
        invariant
            entries_after(bytes@, Seq::empty()) == entries_after(rest@, tagged(entries@)),
        decreases rest@.len(),
    {
        if rest.len() < 8 {
            return None;
        }
        let len: u32 = read_be32(rest, 4);
        if len as usize > rest.len() - 8 {
            return None;
        }
        let end: usize = 8 + len as usize;
        let ghost was = entries@;
        let tag = vstd::slice::slice_subrange(rest, 0, 4);
        let payload = vstd::slice::slice_subrange(rest, 8, end);
        let after = vstd::slice::slice_subrange(rest, end, rest.len());
        entries.push(Entry { tag, payload });
        proof {
            assert(tag@ =~= rest@.take(4));
            assert(after@ =~= rest@.skip(end as int));
            assert(tagged(entries@) =~= tagged(was).push(
                Tagged { tag: rest@.take(4), payload: payload@ },
            ));
        }
        rest = after;
    }
    Some(entries)
}

fn is_tag(tag: &[u8], a: u8, b: u8, c: u8, d: u8) -> (is: bool)
    ensures
        is == (tag@ == seq![a, b, c, d]),
{
    if tag.len() == 4 && tag[0] == a && tag[1] == b && tag[2] == c && tag[3] == d {
        assert(tag@ =~= seq![a, b, c, d]);
        true
    } else {
        proof {
            if tag@ == seq![a, b, c, d] {
                assert(tag@[0] == a && tag@[1] == b && tag@[2] == c && tag@[3] == d);
            }
        }
        false
    }
}

/// The track that a DMAP payload describes. Unknown tags are skipped; a payload
/// that is malformed, or has no listing item, describes none.
pub fn parse(body: &[u8]) -> (meta: Option<Metadata>)
    ensures
        meta is Some <==> track_fields(body@) is Some,
        meta is Some ==> meta->0.says(track_fields(body@)->0),
        meta is Some ==> reads_exactly(track_fields(body@)->0),
{
    let entries = match walk(body) {
        Some(entries) => entries,
        None => {
            return None;
        },
    };
    let ghost all = tagged(entries@);
    let mut i: usize = 0;
    assert(all.skip(0) =~= all);
    while i < entries.len() && !is_tag(entries[i].tag, 0x6d, 0x6c, 0x69, 0x74)
        invariant
            i <= entries@.len(),
            all == tagged(entries@),
            first_tagged(all, tag_mlit()) == first_tagged(all.skip(i as int), tag_mlit()),
        decreases entries@.len() - i,
    {
        assert(all.skip(i as int).skip(1) =~= all.skip(i + 1));
        i += 1;
    }
    if i == entries.len() {
        return None;
    }
    let fields = match walk(entries[i].payload) {
        Some(fields) => fields,
        None => {
            return None;
        },
    };
    let ghost inner = tagged(fields@);
    let mut meta = Metadata { title: None, artist: None, album: None };
    let mut j: usize = 0;
    while j < fields.len()
        invariant
            j <= fields@.len(),
            inner == tagged(fields@),
            meta.says(inner.take(j as int)),
            reads_exactly(inner.take(j as int)),
        decreases fields@.len() - j,
    {
        let field = &fields[j];
        proof {
            assert(inner.take(j + 1).drop_last() =~= inner.take(j as int));
            assert(inner.take(j + 1).last() == inner[j as int]);
        }
        if is_tag(field.tag, 0x6d, 0x69, 0x6e, 0x6d) {
            meta.title = Some(from_utf8_lossy(field.payload));
        }
        if is_tag(field.tag, 0x61, 0x73, 0x61, 0x72) {
            meta.artist = Some(from_utf8_lossy(field.payload));
        }
        if is_tag(field.tag, 0x61, 0x73, 0x61, 0x6c) {
            meta.album = Some(from_utf8_lossy(field.payload));
        }
        j += 1;
    }
    assert(inner.take(j as int) =~= inner);
    Some(meta)
}

/// A field on the wire: its tag, the length of its payload, and the payload.
pub open spec fn is_field(bytes: Seq<u8>, tag: Seq<u8>, payload: Seq<u8>) -> bool {
    &&& tag.len() == 4
    &&& bytes.len() == 8 + payload.len()
    &&& bytes.take(4) == tag
    &&& bytes[4] * 16777216 + bytes[5] * 65536 + bytes[6] * 256 + bytes[7] == payload.len()
    &&& bytes.skip(8) == payload
}

proof fn lemma_field_is_read(
    field: Seq<u8>,
    tag: Seq<u8>,
    payload: Seq<u8>,
    rest: Seq<u8>,
    seen: Seq<Tagged>,
)
    requires
        is_field(field, tag, payload),
    ensures
        entries_after(field + rest, seen) == entries_after(rest, seen.push(Tagged { tag, payload })),
{
    let bytes = field + rest;
    assert(bytes[4] == field[4] && bytes[5] == field[5] && bytes[6] == field[6] && bytes[7]
        == field[7]);
    let end = 8 + payload.len() as int;
    assert(rtp::be32(bytes, 4) == payload.len());
    assert(bytes.skip(end) =~= rest);
    assert(bytes.take(4) =~= field.take(4));
    assert(bytes.subrange(8, end) =~= field.skip(8));
}

/// A track reads back: a listing item with a title, an artist and an album, in
/// any bytes, says these.
pub proof fn law_a_track_reads_back(
    body: Seq<u8>,
    item: Seq<u8>,
    minm: Seq<u8>,
    title: Seq<u8>,
    asar: Seq<u8>,
    artist: Seq<u8>,
    asal: Seq<u8>,
    album: Seq<u8>,
    meta: Metadata,
)
    requires
        is_field(minm, seq![0x6du8, 0x69, 0x6e, 0x6d], title),
        is_field(asar, seq![0x61u8, 0x73, 0x61, 0x72], artist),
        is_field(asal, seq![0x61u8, 0x73, 0x61, 0x6c], album),
        item == minm + asar + asal,
        is_field(body, seq![0x6du8, 0x6c, 0x69, 0x74], item),
    ensures
        track_fields(body) is Some,
        field_text(track_fields(body)->0, tag_minm()) == Some(utf8::utf8_lossy(title)),
        field_text(track_fields(body)->0, tag_asar()) == Some(utf8::utf8_lossy(artist)),
        field_text(track_fields(body)->0, tag_asal()) == Some(utf8::utf8_lossy(album)),
        meta.says(track_fields(body)->0) ==> {
            &&& text::optional_text(meta.title) == Some(utf8::utf8_lossy(title))
            &&& text::optional_text(meta.artist) == Some(utf8::utf8_lossy(artist))
            &&& text::optional_text(meta.album) == Some(utf8::utf8_lossy(album))
        },
{
    let none = Seq::<u8>::empty();
    let start = Seq::<Tagged>::empty();
    let t_item = seq![0x6du8, 0x6c, 0x69, 0x74];
    let t_title = seq![0x6du8, 0x69, 0x6e, 0x6d];
    let t_artist = seq![0x61u8, 0x73, 0x61, 0x72];
    let t_album = seq![0x61u8, 0x73, 0x61, 0x6c];
    assert(t_title[3] != t_artist[3]);
    assert(t_title[0] != t_album[0]);
    assert(t_artist[3] != t_album[3]);
    lemma_field_is_read(body, t_item, item, none, start);
    assert(body + none =~= body);
    let outer = start.push(Tagged { tag: t_item, payload: item });
    assert(entries_after(body, start) == Some(outer));
    assert(outer[0].tag == tag_mlit());
    lemma_field_is_read(minm, t_title, title, asar + asal, start);
    assert(item =~= minm + (asar + asal));
    let one = start.push(Tagged { tag: t_title, payload: title });
    lemma_field_is_read(asar, t_artist, artist, asal, one);
    let two = one.push(Tagged { tag: t_artist, payload: artist });
    lemma_field_is_read(asal, t_album, album, none, two);
    assert(asal + none =~= asal);
    let three = two.push(Tagged { tag: t_album, payload: album });
    assert(entries_after(item, start) == Some(three));
    assert(three.drop_last() =~= two);
    assert(two.drop_last() =~= one);
    reveal_with_fuel(last_tagged, 4);
}

/// Of several fields of a tag the last one counts, and fields of other tags do
/// not matter.
pub proof fn law_the_last_field_counts(fields: Seq<Tagged>, field: Tagged, tag: Seq<u8>)
    ensures
        field_text(fields.push(field), tag) == (if field.tag == tag {
            Some(utf8::utf8_lossy(field.payload))
        } else {
            field_text(fields, tag)
        }),
        field_text(Seq::empty(), tag) is None,
{
    assert(fields.push(field).drop_last() =~= fields);
}

/// A payload whose field runs past its end, or that breaks off within a field's
/// header, says nothing.
pub proof fn law_a_truncated_track_says_nothing(body: Seq<u8>)
    requires
        0 < body.len() < 8 || body.len() >= 8 && body[4] * 16777216 + body[5] * 65536 + body[6] * 256
            + body[7] > body.len() - 8,
    ensures
        track_fields(body) is None,
{
}

/// The first listing item counts: what other fields stand before it, and what
/// items or fields behind it, does not matter.
pub proof fn law_the_first_item_counts(
    first: Seq<u8>,
    item: Seq<u8>,
    other: Seq<u8>,
    tag: Seq<u8>,
    payload: Seq<u8>,
)
    requires
        is_field(first, seq![0x6du8, 0x6c, 0x69, 0x74], item),
        is_field(other, tag, payload),
    ensures
        track_fields(first + other) == track_fields(first),
        tag != seq![0x6du8, 0x6c, 0x69, 0x74] ==> track_fields(other + first) == track_fields(
            first,
        ),
        tag != seq![0x6du8, 0x6c, 0x69, 0x74] ==> track_fields(other) is None,
        track_fields(Seq::empty()) is None,
{
    let none = Seq::<u8>::empty();
    let start = Seq::<Tagged>::empty();
    let mlit = seq![0x6du8, 0x6c, 0x69, 0x74];
    let a = Tagged { tag: mlit, payload: item };
    let b = Tagged { tag, payload };
    assert(first + none =~= first);
    assert(other + none =~= other);
    lemma_field_is_read(first, mlit, item, none, start);
    lemma_field_is_read(first, mlit, item, other, start);
    lemma_field_is_read(other, tag, payload, none, start.push(a));
    lemma_field_is_read(other, tag, payload, first, start);
    lemma_field_is_read(first, mlit, item, none, start.push(b));
    lemma_field_is_read(other, tag, payload, none, start);
    assert(entries_after(first, start) == Some(start.push(a)));
    assert(entries_after(first + other, start) == Some(start.push(a).push(b)));
    assert(entries_after(other + first, start) == Some(start.push(b).push(a)));
    assert(entries_after(other, start) == Some(start.push(b)));
    assert(start.push(a)[0] == a);
    assert(start.push(a).push(b)[0] == a);
    assert(start.push(b).push(a)[0] == b);
    assert(start.push(b).push(a).skip(1) =~= start.push(a));
    assert(start.push(b)[0] == b);
    assert(start.push(b).skip(1) =~= start);
}

} // verus!
