//! Just enough SDP parsing to pull the fields an AirPlay 1 ANNOUNCE carries.
//!
//! The body looks like:
//! ```text
//! v=0
//! o=iTunes 3413821438 0 IN IP4 192.168.1.2
//! s=iTunes
//! c=IN IP4 192.168.1.10
//! t=0 0
//! m=audio 0 RTP/AVP 96
//! a=rtpmap:96 AppleLossless
//! a=fmtp:96 352 0 16 40 10 14 2 255 0 0 44100
//! a=rsaaeskey:<base64>
//! a=aesiv:<base64>
//! a=min-latency:11025
//! ```

use vstd::prelude::*;

use crate::number;
use crate::number::parse_unsigned;
use crate::text;
use crate::text::{
    chars_of, lines, same_chars, split_once, split_whitespace, string_of, strip_prefix, trim,
};

verus! {

/// The AirPlay-relevant subset of an ANNOUNCE SDP body. Values are the raw
/// attribute text (after the `a=<name>:` prefix); decoding is the caller's
/// job so that errors surface with proper RTSP status codes.
#[derive(Debug, PartialEq, Eq)]
pub struct Sdp {
    pub rtpmap: Option<String>,
    pub fmtp: Option<String>,
    pub rsaaeskey: Option<String>,
    pub aesiv: Option<String>,
    pub min_latency: Option<u32>,
}

/// The name and the (trimmed) value of an `a=name:value` line.
pub open spec fn attribute(line: Seq<char>) -> Option<(Seq<char>, Seq<char>)> {
    if text::has_prefix(line, "a="@) {
        match text::split_once_of(line.skip("a="@.len() as int), ':') {
            Some((name, value)) => Some((name, text::trimmed(value))),
            None => None,
        }
    } else {
        None
    }
}

/// The value of the last attribute of that name.
pub open spec fn last_attribute(lines: Seq<Seq<char>>, name: Seq<char>) -> Option<Seq<char>>
    decreases lines.len(),
{
    if lines.len() == 0 {
        None
    } else if attribute(lines.last()) is Some && (attribute(lines.last())->0).0 == name {
        Some((attribute(lines.last())->0).1)
    } else {
        last_attribute(lines.drop_last(), name)
    }
}

/// The number that an attribute spells, where it spells one that fits 32 bits.
pub open spec fn attribute_number(value: Option<Seq<char>>) -> Option<int> {
    match value {
        Some(value) => number::parsed_unsigned(value, 10, u32::MAX as int),
        None => None,
    }
}

impl Sdp {
    /// Whether this holds the attributes of these lines.
    pub open spec fn holds(self, lines: Seq<Seq<char>>) -> bool {
        &&& text::optional_text(self.rtpmap) == last_attribute(lines, "rtpmap"@)
        &&& text::optional_text(self.fmtp) == last_attribute(lines, "fmtp"@)
        &&& text::optional_text(self.rsaaeskey) == last_attribute(lines, "rsaaeskey"@)
        &&& text::optional_text(self.aesiv) == last_attribute(lines, "aesiv"@)
        &&& self.min_latency is Some <==> attribute_number(
            last_attribute(lines, "min-latency"@),
        ) is Some
        &&& self.min_latency is Some ==> self.min_latency->0 == attribute_number(
            last_attribute(lines, "min-latency"@),
        )->0
    }

    /// Pick the attributes out of an SDP body; the last of each name counts.
    pub fn parse(body: &str) -> (sdp: Sdp)
        ensures
            sdp.holds(text::lines_of(body@)),
    {
        let chars = chars_of(body);
        let all = lines(chars.as_slice());
        let ghost contents = text::contents(all@);
        let prefix = chars_of("a=");
        let rtpmap = chars_of("rtpmap");
        let fmtp = chars_of("fmtp");
        let rsaaeskey = chars_of("rsaaeskey");
        let aesiv = chars_of("aesiv");
        let min_latency = chars_of("min-latency");
        let mut sdp = Sdp {
            rtpmap: None,
            fmtp: None,
            rsaaeskey: None,
            aesiv: None,
            min_latency: None,
        };
        let mut i: usize = 0;
        while i < all.len()
            invariant
                i <= all@.len(),
                contents == text::contents(all@),
                prefix@ == "a="@,
                rtpmap@ == "rtpmap"@,
                fmtp@ == "fmtp"@,
                rsaaeskey@ == "rsaaeskey"@,
                aesiv@ == "aesiv"@,
                min_latency@ == "min-latency"@,
                sdp.holds(contents.take(i as int)),
            decreases all@.len() - i,
        {
            let line: &[char] = all[i];
            proof {
                assert(contents.take(i + 1).drop_last() =~= contents.take(i as int));
                assert(contents.take(i + 1).last() == line@);
            }
            i += 1;
            let after = match strip_prefix(line, prefix.as_slice()) {
                Some(after) => after,
                None => {
                    continue ;
                },
            };
            let (name, raw) = match split_once(after, ':') {
                Some(parts) => parts,
                None => {
                    continue ;
                },
            };
            let value = trim(raw);
            if same_chars(name, rtpmap.as_slice()) {
                sdp.rtpmap = Some(string_of(value));
            }
            if same_chars(name, fmtp.as_slice()) {
                sdp.fmtp = Some(string_of(value));
            }
            if same_chars(name, rsaaeskey.as_slice()) {
                sdp.rsaaeskey = Some(string_of(value));
            }
            if same_chars(name, aesiv.as_slice()) {
                sdp.aesiv = Some(string_of(value));
            }
            if same_chars(name, min_latency.as_slice()) {
                sdp.min_latency = match parse_unsigned(value, 10, u32::MAX as u64) {
                    Some(n) => Some(n as u32),
                    None => None,
                };
            }
        }
        assert(contents.take(i as int) =~= contents);
        sdp
    }
}

/// The ALAC configuration carried in `a=fmtp`. The twelve integers are, in
/// order: payload type, frames per packet, compatible version, bit depth,
/// pb, mb, kb, channels, max run, max frame bytes, average bit rate, sample
/// rate.
#[derive(Debug, Clone, Copy, PartialEq, Eq)]
pub struct AlacConfig {
    pub frames_per_packet: u32,
    pub bit_depth: u8,
    pub channels: u8,
    pub sample_rate: u32,
    pub raw: [u32; 12],
}

/// The `i`th number of an `fmtp` value.
pub open spec fn fmtp_number(fmtp: Seq<char>, i: int) -> Option<int> {
    if i < text::words_of(fmtp).len() {
        number::parsed_unsigned(text::words_of(fmtp)[i], 10, u32::MAX as int)
    } else {
        None
    }
}

/// Whether an `fmtp` value has its twelve numbers.
pub open spec fn fmtp_ok(fmtp: Seq<char>) -> bool {
    forall|i: int| 0 <= i < 12 ==> #[trigger] fmtp_number(fmtp, i) is Some
}

impl AlacConfig {
    /// The named fields are those of the raw numbers.
    pub open spec fn wf(self) -> bool {
        &&& self.frames_per_packet == self.raw@[1]
        &&& self.bit_depth == self.raw@[3] % 0x100
        &&& self.channels == self.raw@[7] % 0x100
        &&& self.sample_rate == self.raw@[11]
    }

    /// Parse the space-separated fmtp integers. Requires the full twelve
    /// (every Apple sender sends them); any that follow are ignored.
    pub fn parse(fmtp: &str) -> (config: Option<AlacConfig>)
        ensures
            config is Some <==> fmtp_ok(fmtp@),
            config is Some ==> {
                &&& config->0.wf()
                &&& forall|i: int|
                    0 <= i < 12 ==> #[trigger] config->0.raw@[i] == fmtp_number(fmtp@, i)->0
            },
    {
        let chars = chars_of(fmtp);
        let words = split_whitespace(chars.as_slice());
        let ghost contents = text::contents(words@);
        let mut raw: Vec<u32> = Vec::new();
        while raw.len() < 12
            invariant
                raw@.len() <= 12,
                contents == text::contents(words@),
                contents == text::words_of(fmtp@),
                forall|k: int|
                    0 <= k < raw@.len() ==> fmtp_number(fmtp@, k) == Some(#[trigger] raw@[k] as int),
            decreases 12 - raw@.len(),
        {
            let i: usize = raw.len();
            if i >= words.len() {
                assert(fmtp_number(fmtp@, i as int) is None);
                return None;
            }
            assert(contents[i as int] == words@[i as int]@);
            let n: u64 = match parse_unsigned(words[i], 10, u32::MAX as u64) {
                Some(n) => n,
                None => {
                    assert(fmtp_number(fmtp@, i as int) is None);
                    return None;
                },
            };
            assert(fmtp_number(fmtp@, i as int) == Some(n as int));
            raw.push(n as u32);
        }
        let numbers: [u32; 12] = [
            raw[0],
            raw[1],
            raw[2],
            raw[3],
            raw[4],
            raw[5],
            raw[6],
            raw[7],
            raw[8],
            raw[9],
            raw[10],
            raw[11],
        ];
        assert(numbers@ =~= raw@);
        assert forall|i: int| 0 <= i < 12 implies #[trigger] fmtp_number(fmtp@, i) is Some by {
            assert(raw@[i] == fmtp_number(fmtp@, i)->0);
        }
        Some(
            AlacConfig {
                frames_per_packet: numbers[1],
                bit_depth: (numbers[3] % 0x100) as u8,
                channels: (numbers[7] % 0x100) as u8,
                sample_rate: numbers[11],
                raw: numbers,
            },
        )
    }
}

/// An attribute line says what stands behind its colon, without the blanks
/// around it; a line that does not begin with `a=` says nothing.
pub proof fn law_an_attribute_is_name_and_value(
    name: Seq<char>,
    value: Seq<char>,
    line: Seq<char>,
)
    requires
        forall|i: int| 0 <= i < name.len() ==> #[trigger] name[i] != ':',
    ensures
        attribute("a="@ + name + ":"@ + value) == Some((name, text::trimmed(value))),
        attribute("a="@ + name) is None,
        line.len() < 2 || line[0] != 'a' || line[1] != '=' ==> attribute(line) is None,
{
    reveal_strlit("a=");
    reveal_strlit(":");
    assert("a="@.len() == 2 && "a="@[0] == 'a' && "a="@[1] == '=');
    assert(":"@ =~= seq![':']);
    let tail = name + ":"@ + value;
    text::law_a_prefix_is_a_beginning("a="@, tail, line);
    assert("a="@ + name + ":"@ + value =~= "a="@ + tail);
    assert(("a="@ + tail).skip(2) =~= tail);
    text::law_a_character_is_found_where_it_stands_first(name, ':', value);
    text::law_a_prefix_is_a_beginning("a="@, name, line);
    assert(("a="@ + name).skip(2) =~= name);
    if text::has_prefix(line, "a="@) {
        assert(line.take(2)[0] == line[0] && line.take(2)[1] == line[1]);
    }
}

/// Of several attributes of a name the last one counts; other lines do not
/// matter.
pub proof fn law_the_last_attribute_counts(
    lines: Seq<Seq<char>>,
    name: Seq<char>,
    value: Seq<char>,
    other: Seq<char>,
)
    requires
        forall|i: int| 0 <= i < name.len() ==> #[trigger] name[i] != ':',
    ensures
        last_attribute(lines.push("a="@ + name + ":"@ + value), name) == Some(text::trimmed(value)),
        attribute(other) is None || (attribute(other)->0).0 != name ==> last_attribute(
            lines.push(other),
            name,
        ) == last_attribute(lines, name),
        last_attribute(Seq::empty(), name) is None,
{
    law_an_attribute_is_name_and_value(name, value, other);
    let line = "a="@ + name + ":"@ + value;
    assert(lines.push(line).drop_last() =~= lines);
    assert(lines.push(other).drop_last() =~= lines);
}

/// A format is read number by number: twelve numbers with a blank between them
/// are the payload type, then the frames of a packet, and so on to the sample
/// rate.
pub proof fn law_a_format_is_read_number_by_number(
    alac: AlacConfig,
    numbers: Seq<u32>,
    fmtp: Seq<char>,
    i: int,
)
    requires
        numbers.len() >= 12,
        0 <= i < 12,
        fmtp == text::joined(numbers.map_values(|n: u32| number::decimal(n as nat)), ' '),
    ensures
        fmtp_number(fmtp, i) == Some(numbers[i] as int),
        fmtp_ok(fmtp),
        alac.wf() && (forall|k: int|
            0 <= k < 12 ==> #[trigger] alac.raw@[k] == fmtp_number(fmtp, k)->0) ==> {
            &&& alac.frames_per_packet == numbers[1]
            &&& alac.bit_depth == numbers[3] % 256
            &&& alac.channels == numbers[7] % 256
            &&& alac.sample_rate == numbers[11]
        },
{
    let words = numbers.map_values(|n: u32| number::decimal(n as nat));
    assert forall|k: int| 0 <= k < words.len() implies (#[trigger] words[k]).len() > 0 by {
        number::lemma_decimal_is_bare(numbers[k] as nat);
    }
    assert forall|k: int, j: int| 0 <= k < words.len() && 0 <= j < words[k].len() implies
        !text::is_space(#[trigger] words[k][j]) by {
        number::lemma_decimal_is_bare(numbers[k] as nat);
    }
    text::law_words_are_cut_apart_again(words);
    assert forall|k: int| 0 <= k < 12 implies #[trigger] fmtp_number(fmtp, k) == Some(
        numbers[k] as int,
    ) by {
        number::law_decimal_reads_back(numbers[k] as nat, u32::MAX as int);
        assert(words[k] == number::decimal(numbers[k] as nat));
    }
    if alac.wf() && (forall|k: int|
        0 <= k < 12 ==> #[trigger] alac.raw@[k] == fmtp_number(fmtp, k)->0) {
        assert(alac.raw@[1] == fmtp_number(fmtp, 1)->0);
        assert(alac.raw@[3] == fmtp_number(fmtp, 3)->0);
        assert(alac.raw@[7] == fmtp_number(fmtp, 7)->0);
        assert(alac.raw@[11] == fmtp_number(fmtp, 11)->0);
    }
}

/// A format with fewer than twelve words is none.
pub proof fn law_a_short_format_is_none(fmtp: Seq<char>)
    requires
        text::words_of(fmtp).len() < 12,
    ensures
        !fmtp_ok(fmtp),
{
    assert(fmtp_number(fmtp, 11) is None);
}

/// A description holds each of its attributes under its own name, the last of
/// each counting, and the latency where it is a number.
pub proof fn law_a_description_holds_its_attributes(
    sdp: Sdp,
    lines: Seq<Seq<char>>,
    value: Seq<char>,
    n: u32,
)
    requires
        value.len() > 0,
        !text::is_space(value[0]),
        !text::is_space(value.last()),
    ensures
        sdp.holds(lines.push("a=rtpmap:"@ + value)) ==> text::optional_text(sdp.rtpmap) == Some(
            value,
        ),
        sdp.holds(lines.push("a=fmtp:"@ + value)) ==> text::optional_text(sdp.fmtp) == Some(value),
        sdp.holds(lines.push("a=rsaaeskey:"@ + value)) ==> text::optional_text(sdp.rsaaeskey)
            == Some(value),
        sdp.holds(lines.push("a=aesiv:"@ + value)) ==> text::optional_text(sdp.aesiv) == Some(
            value,
        ),
        sdp.holds(lines.push("a=min-latency:"@ + number::decimal(n as nat))) ==> sdp.min_latency
            == Some(n),
        sdp.holds(Seq::empty()) ==> sdp.rtpmap is None && sdp.fmtp is None && sdp.rsaaeskey is None
            && sdp.aesiv is None && sdp.min_latency is None,
{
    reveal_strlit("a=");
    reveal_strlit(":");
    reveal_strlit("rtpmap");
    reveal_strlit("fmtp");
    reveal_strlit("rsaaeskey");
    reveal_strlit("aesiv");
    reveal_strlit("min-latency");
    reveal_strlit("a=rtpmap:");
    reveal_strlit("a=fmtp:");
    reveal_strlit("a=rsaaeskey:");
    reveal_strlit("a=aesiv:");
    reveal_strlit("a=min-latency:");
    let none = Seq::<char>::empty();
    assert("a="@ + "rtpmap"@ + ":"@ + value =~= "a=rtpmap:"@ + value);
    assert("a="@ + "fmtp"@ + ":"@ + value =~= "a=fmtp:"@ + value);
    assert("a="@ + "rsaaeskey"@ + ":"@ + value =~= "a=rsaaeskey:"@ + value);
    assert("a="@ + "aesiv"@ + ":"@ + value =~= "a=aesiv:"@ + value);
    let latency = number::decimal(n as nat);
    assert("a="@ + "min-latency"@ + ":"@ + latency =~= "a=min-latency:"@ + latency);
    text::law_trimming_takes_the_blanks_off_the_ends(none, value, none);
    number::lemma_decimal_is_bare(n as nat);
    number::law_decimal_reads_back(n as nat, u32::MAX as int);
    law_the_last_attribute_counts(lines, "rtpmap"@, value, none);
    law_the_last_attribute_counts(lines, "fmtp"@, value, none);
    law_the_last_attribute_counts(lines, "rsaaeskey"@, value, none);
    law_the_last_attribute_counts(lines, "aesiv"@, value, none);
    law_the_last_attribute_counts(lines, "min-latency"@, latency, none);
}

} // verus!
