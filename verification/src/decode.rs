//! What the ALAC decoder of a stream is set up with.
//!
//! RAOP delivers raw ALAC packets (no container); each decodes to a block of
//! interleaved `i16` PCM. The decoder is configured from the SDP `fmtp`
//! parameters captured at ANNOUNCE.

use vstd::prelude::*;

use crate::number;
use crate::number::push_decimal;
use crate::sdp::AlacConfig;
use crate::text;

verus! {

/// The greatest value that field `i` of the eleven ALAC format parameters can
/// have: the frame length; version, bit depth, pb, mb, kb and channels, a byte
/// each; the two-byte max run; frame bytes, bit rate and sample rate.
pub open spec fn parameter_limit(i: int) -> int {
    if 1 <= i <= 6 {
        0xff
    } else if i == 7 {
        0xffff
    } else {
        0xffff_ffff
    }
}

/// The numbers of an ALAC format parameter text, if it has exactly eleven
/// words and each is a number that its field can have.
pub open spec fn parameters(params: Seq<char>) -> Option<Seq<int>> {
    let words = text::words_of(params);
    if words.len() == 11 && forall|i: int|
        0 <= i < 11 ==> number::parsed_unsigned(#[trigger] words[i], 10, parameter_limit(i)) is Some {
        Some(Seq::new(11, |i: int| number::parsed_unsigned(words[i], 10, parameter_limit(i))->0))
    } else {
        None
    }
}

/// `alac::StreamInfo::from_sdp_format_parameters`, with the `max_frames_per_packet`
/// and the `channels` that it reads: fields 0 and 6 of the eleven parameters.
/// It fails on any other number of words, and where one is no number that its
/// field can have.
#[verifier::external_body]
fn stream_info(params: &str) -> (info: Option<(u32, u8)>)
    ensures
        info is Some <==> parameters(params@) is Some,
        info matches Some((frames, channels)) ==> frames == parameters(params@)->0[0] && channels
            == parameters(params@)->0[6],
{
    let info = alac::StreamInfo::from_sdp_format_parameters(params).ok()?;
    Some((info.max_frames_per_packet(), info.channels()))
}

/// Why nothing was decoded.
#[derive(Debug, Clone, Copy, PartialEq, Eq)]
pub enum DecodeError {
    /// The stream's parameters are no ALAC configuration.
    Config,
    /// The packet is malformed.
    Packet,
}

impl DecodeError {
    /// What went wrong, for the log.
    pub fn message(&self) -> (text: String)
        ensures
            text@ == (match *self {
                DecodeError::Config => "invalid ALAC configuration"@,
                DecodeError::Packet => "malformed ALAC packet"@,
            }),
    {
        match self {
            DecodeError::Config => "invalid ALAC configuration".to_owned(),
            DecodeError::Packet => "malformed ALAC packet".to_owned(),
        }
    }
}

/// The set-up of a stream's ALAC decoder.
pub struct AlacDecoder {
    params: String,
    channels: usize,
    max_samples: u64,
}

/// What a decoder is set up with.
pub struct DecoderSetup {
    /// The format parameters.
    pub params: Seq<char>,
    /// The channel count.
    pub channels: nat,
    /// The most samples that a packet decodes to.
    pub max_samples: nat,
}

impl View for AlacDecoder {
    type V = DecoderSetup;

    closed spec fn view(&self) -> DecoderSetup {
        DecoderSetup {
            params: self.params@,
            channels: self.channels as nat,
            max_samples: self.max_samples as nat,
        }
    }
}

/// Some numbers in decimal, a space between them.
pub open spec fn spaced(numbers: Seq<u32>) -> Seq<char>
    decreases numbers.len(),
{
    if numbers.len() == 0 {
        Seq::empty()
    } else if numbers.len() == 1 {
        number::decimal(numbers[0] as nat)
    } else {
        number::decimal(numbers[0] as nat) + " "@ + spaced(numbers.skip(1))
    }
}

/// The eleven `fmtp` numbers after the payload type.
pub open spec fn format_numbers(config: AlacConfig) -> Seq<u32> {
    config.raw@.skip(1)
}

/// Whether those numbers are ones that the fields of an ALAC configuration can
/// have.
pub open spec fn format_ok(config: AlacConfig) -> bool {
    forall|i: int| 0 <= i < 11 ==> #[trigger] format_numbers(config)[i] <= parameter_limit(i)
}

proof fn lemma_decimal_has_no_space(n: nat)
    ensures
        number::decimal(n).len() > 0,
        forall|i: int|
            0 <= i < number::decimal(n).len() ==> !text::is_space(#[trigger] number::decimal(n)[i]),
    decreases n,
{
    if n >= 10 {
        lemma_decimal_has_no_space(n / 10);
    }
}

proof fn lemma_word(word: Seq<char>, rest: Seq<char>)
    requires
        forall|i: int| 0 <= i < word.len() ==> !text::is_space(#[trigger] word[i]),
        rest.len() > 0 ==> text::is_space(rest[0]),
    ensures
        text::word_len(word + rest) == word.len(),
    decreases word.len(),
{
    if word.len() > 0 {
        lemma_word(word.skip(1), rest);
        assert((word + rest).skip(1) =~= word.skip(1) + rest);
    } else {
        assert(word + rest =~= rest);
    }
}

/// Numbers written with spaces between them are its words.
proof fn lemma_spaced_words(numbers: Seq<u32>)
    requires
        numbers.len() > 0,
    ensures
        text::words_of(spaced(numbers)) == numbers.map_values(
            |n: u32| number::decimal(n as nat),
        ),
    decreases numbers.len(),
{
    let first = number::decimal(numbers[0] as nat);
    lemma_decimal_has_no_space(numbers[0] as nat);
    let rest = if numbers.len() == 1 {
        Seq::<char>::empty()
    } else {
        " "@ + spaced(numbers.skip(1))
    };
    reveal_strlit(" ");
    let whole = spaced(numbers);
    assert(whole =~= first + rest);
    assert(whole[0] == first[0]);
    lemma_word(first, rest);
    assert(whole.take(first.len() as int) =~= first);
    assert(whole.skip(first.len() as int) =~= rest);
    text::lemma_trim_start_shrinks(rest);
    assert(text::words_of(whole) == seq![first] + text::words_of(rest));
    if numbers.len() == 1 {
        assert(text::words_of(rest) =~= Seq::<Seq<char>>::empty());
    } else {
        lemma_spaced_words(numbers.skip(1));
        assert(rest.skip(1) =~= spaced(numbers.skip(1)));
        assert(text::trim_start_of(rest) == text::trim_start_of(rest.skip(1)));
        assert(text::words_of(rest) == text::words_of(rest.skip(1)));
    }
    assert(text::words_of(whole) =~= numbers.map_values(|n: u32| number::decimal(n as nat)));
}

/// What [`parameters`] makes of numbers written with spaces between them.
proof fn lemma_parameters_of_spaced(numbers: Seq<u32>)
    requires
        numbers.len() == 11,
    ensures
        parameters(spaced(numbers)) is Some <==> forall|i: int|
            0 <= i < 11 ==> #[trigger] numbers[i] <= parameter_limit(i),
        parameters(spaced(numbers)) matches Some(values) ==> forall|i: int|
            0 <= i < 11 ==> #[trigger] values[i] == numbers[i],
{
    lemma_spaced_words(numbers);
    let words = text::words_of(spaced(numbers));
    assert forall|i: int| 0 <= i < 11 implies number::parsed_unsigned(
        #[trigger] words[i],
        10,
        parameter_limit(i),
    ) == (if numbers[i] <= parameter_limit(i) {
        Some(numbers[i] as int)
    } else {
        None
    }) by {
        number::law_decimal_reads_back(numbers[i] as nat, 0xffff_ffff);
    }
    if forall|i: int| 0 <= i < 11 ==> #[trigger] numbers[i] <= parameter_limit(i) {
        assert forall|i: int| 0 <= i < 11 implies number::parsed_unsigned(
            #[trigger] words[i],
            10,
            parameter_limit(i),
        ) is Some by {
            assert(numbers[i] <= parameter_limit(i));
        }
    }
    if parameters(spaced(numbers)) is Some {
        assert forall|i: int| 0 <= i < 11 implies #[trigger] numbers[i] <= parameter_limit(i) by {
            assert(number::parsed_unsigned(words[i], 10, parameter_limit(i)) is Some);
        }
    }
}

impl AlacDecoder {
    /// Set up a decoder from the ANNOUNCE fmtp config: the eleven fields after
    /// the payload type. It fails if one of them does not fit its place in an
    /// ALAC configuration.
    pub fn new(config: &AlacConfig) -> (decoder: Result<AlacDecoder, DecodeError>)
        ensures
            decoder is Ok <==> format_ok(*config),
            decoder matches Ok(d) ==> {
                &&& d@.params == spaced(format_numbers(*config))
                &&& d@.channels == config.raw@[7]
                &&& d@.max_samples == config.raw@[1] * config.raw@[7]
            },
            decoder matches Err(e) ==> e == DecodeError::Config,
    {
        let ghost numbers = format_numbers(*config);
        let mut params = String::new();
        let mut i: usize = 1;
        assert(numbers.skip(0) =~= numbers);
        assert(params@ + spaced(numbers) =~= spaced(numbers));
        while i < 12
            invariant
                1 <= i <= 12,
                numbers == config.raw@.skip(1),
                params@ + (if i == 1 {
                    spaced(numbers)
                } else if i < 12 {
                    " "@ + spaced(numbers.skip(i - 1))
                } else {
                    Seq::empty()
                }) == spaced(numbers),
            decreases 12 - i,
        {
            let ghost before = params@;
            if i > 1 {
                params.append(" ");
            }
            push_decimal(&mut params, config.raw[i] as u64);
            proof {
                let rest = numbers.skip(i - 1);
                assert(rest[0] == config.raw@[i as int]);
                assert(rest.skip(1) =~= numbers.skip(i as int));
                assert(numbers.skip(0) =~= numbers);
                if i == 11 {
                    assert(params@ + Seq::<char>::empty() =~= spaced(numbers));
                } else {
                    assert(params@ + (" "@ + spaced(numbers.skip(i as int))) =~= spaced(numbers));
                }
            }
            i += 1;
        }
        assert(params@ =~= spaced(numbers));
        proof {
            lemma_parameters_of_spaced(numbers);
        }
        match stream_info(params.as_str()) {
            None => Err(DecodeError::Config),
            Some((frames, channels)) => {
                proof {
                    let values = parameters(params@)->0;
                    assert(values[0] == numbers[0]);
                    assert(values[6] == numbers[6]);
                    assert(frames * channels <= 0xffff_ffff * 0xff) by (nonlinear_arith)
                        requires
                            frames <= 0xffff_ffff,
                            channels <= 0xff,
                    ;
                }
                Ok(
                    AlacDecoder {
                        params,
                        channels: channels as usize,
                        max_samples: frames as u64 * channels as u64,
                    },
                )
            },
        }
    }

    /// The channel count.
    pub fn channels(&self) -> (channels: usize)
        ensures
            channels == self@.channels,
    {
        self.channels
    }

    /// The most samples that a packet decodes to.
    pub fn max_samples(&self) -> (samples: u64)
        ensures
            samples == self@.max_samples,
    {
        self.max_samples
    }

    /// The format parameters, for the decoder itself.
    pub fn params(&self) -> (params: &str)
        ensures
            params@ == self@.params,
    {
        self.params.as_str()
    }
}

/// Which formats can be decoded: those whose numbers fit what the decoder takes,
/// six of a byte after the packet length, then one of two bytes, the rest any.
pub proof fn law_formats_fit_their_fields(config: AlacConfig)
    ensures
        format_ok(config) <==> {
            &&& config.raw@[2] <= 255
            &&& config.raw@[3] <= 255
            &&& config.raw@[4] <= 255
            &&& config.raw@[5] <= 255
            &&& config.raw@[6] <= 255
            &&& config.raw@[7] <= 255
            &&& config.raw@[8] <= 65_535
        },
{
    let n = format_numbers(config);
    assert(config.raw@.len() == 12);
    assert(forall|i: int| 0 <= i < 11 ==> #[trigger] n[i] == config.raw@[i + 1]);
    if format_ok(config) {
        assert(n[1] <= parameter_limit(1) && n[2] <= parameter_limit(2) && n[3] <= parameter_limit(3)
            && n[4] <= parameter_limit(4) && n[5] <= parameter_limit(5) && n[6] <= parameter_limit(
            6,
        ) && n[7] <= parameter_limit(7));
    }
}

/// The decoder is handed the format's numbers but the first, in decimal, in
/// order, with a space between them, and reads them as they are.
pub proof fn law_the_format_is_handed_on(config: AlacConfig, i: int)
    requires
        0 <= i < 11,
    ensures
        format_numbers(config).len() == 11,
        format_numbers(config)[i] == config.raw@[i + 1],
        spaced(format_numbers(config)) == text::joined(
            format_numbers(config).map_values(|n: u32| number::decimal(n as nat)),
            ' ',
        ),
        format_ok(config) ==> parameters(spaced(format_numbers(config))) is Some && parameters(
            spaced(format_numbers(config)),
        )->0[i] == config.raw@[i + 1],
{
    let numbers = format_numbers(config);
    assert(config.raw@.len() == 12);
    lemma_spaced_is_joined(numbers);
    if format_ok(config) {
        lemma_parameters_of_spaced(numbers);
    }
}

proof fn lemma_spaced_is_joined(numbers: Seq<u32>)
    ensures
        spaced(numbers) == text::joined(
            numbers.map_values(|n: u32| number::decimal(n as nat)),
            ' ',
        ),
    decreases numbers.len(),
{
    reveal_strlit(" ");
    assert(" "@ =~= seq![' ']);
    let decimals = numbers.map_values(|n: u32| number::decimal(n as nat));
    if numbers.len() > 1 {
        lemma_spaced_is_joined(numbers.skip(1));
        assert(decimals.skip(1) =~= numbers.skip(1).map_values(
            |n: u32| number::decimal(n as nat),
        ));
    }
}

/// The decoder's parameters are eleven numbers, each within what it takes; fewer,
/// more, or larger ones are none.
pub proof fn law_there_are_eleven_parameters(params: Seq<char>)
    ensures
        text::words_of(params).len() != 11 ==> parameters(params) is None,
        parameters(params) matches Some(values) ==> {
            &&& values.len() == 11
            &&& 0 <= values[0] <= 0xffff_ffff
            &&& forall|i: int| 1 <= i <= 6 ==> 0 <= #[trigger] values[i] <= 255
            &&& 0 <= values[7] <= 65_535
            &&& forall|i: int| 8 <= i < 11 ==> 0 <= #[trigger] values[i] <= 0xffff_ffff
        },
{
    let words = text::words_of(params);
    if parameters(params) is Some {
        assert forall|i: int| 0 <= i < 11 implies 0 <= #[trigger] parameters(params)->0[i]
            <= parameter_limit(i) by {
            assert(number::parsed_unsigned(words[i], 10, parameter_limit(i)) is Some);
            number::lemma_parsed_is_in_bounds(words[i], 10, parameter_limit(i));
        }
    }
}

} // verus!
