//! MAC addresses: how one is written, and which one a receiver goes by.

use vstd::prelude::*;

use crate::number;
use crate::number::parse_unsigned;
use crate::text;
use crate::text::{chars_of, split, trim};

verus! {

/// The MAC address that a text spells: six hexadecimal bytes with colons
/// between them.
pub open spec fn mac_of(s: Seq<char>) -> Option<Seq<u8>> {
    let parts = text::split_of(text::trimmed(s), ':');
    if parts.len() == 6 && forall|i: int|
        0 <= i < 6 ==> number::parsed_unsigned(#[trigger] parts[i], 16, 255) is Some {
        Some(Seq::new(6, |i: int| number::parsed_unsigned(parts[i], 16, 255)->0 as u8))
    } else {
        None
    }
}

/// Parse a MAC address, e.g. `aa:bb:cc:dd:ee:ff`.
pub fn parse_mac(s: &str) -> (mac: Option<[u8; 6]>)
    ensures
        mac is Some <==> mac_of(s@) is Some,
        mac is Some ==> mac->0@ == mac_of(s@)->0,
{
    let chars = chars_of(s);
    let parts = split(trim(chars.as_slice()), ':');
    let ghost contents = text::contents(parts@);
    if parts.len() != 6 {
        return None;
    }
    let mut bytes: Vec<u8> = Vec::new();
    while bytes.len() < 6
        invariant
            bytes@.len() <= 6,
            parts@.len() == 6,
            contents == text::contents(parts@),
            contents == text::split_of(text::trimmed(s@), ':'),
            forall|k: int|
                0 <= k < bytes@.len() ==> number::parsed_unsigned(contents[k], 16, 255) == Some(
                    #[trigger] bytes@[k] as int,
                ),
        decreases 6 - bytes@.len(),
    {
        let i: usize = bytes.len();
        assert(contents[i as int] == parts@[i as int]@);
        match parse_unsigned(parts[i], 16, 255) {
            Some(n) => {
                bytes.push(n as u8);
            },
            None => {
                assert(number::parsed_unsigned(contents[i as int], 16, 255) is None);
                return None;
            },
        }
    }
    let mac: [u8; 6] = [bytes[0], bytes[1], bytes[2], bytes[3], bytes[4], bytes[5]];
    proof {
        assert forall|i: int| 0 <= i < 6 implies number::parsed_unsigned(
            #[trigger] contents[i],
            16,
            255,
        ) is Some && mac@[i] == number::parsed_unsigned(contents[i], 16, 255)->0 as u8 by {
            assert(number::parsed_unsigned(contents[i], 16, 255) == Some(bytes@[i] as int));
        }
        assert(mac@ =~= mac_of(s@)->0);
    }
    Some(mac)
}

/// A network interface, as far as its address matters.
#[derive(Debug)]
pub struct Interface {
    /// Whether it is the loopback interface.
    pub loopback: bool,
    /// Whether it is up.
    pub up: bool,
    /// Its MAC address, as the system writes it.
    pub address: String,
}

/// Whether a receiver can go by the address of an interface.
pub open spec fn is_usable(interface: Interface) -> bool {
    interface.up && !interface.loopback && mac_of(interface.address@) is Some
}

/// The address of the first usable interface.
pub open spec fn first_address(interfaces: Seq<Interface>) -> Option<Seq<u8>>
    decreases interfaces.len(),
{
    if interfaces.len() == 0 {
        None
    } else if is_usable(interfaces[0]) {
        mac_of(interfaces[0].address@)
    } else {
        first_address(interfaces.skip(1))
    }
}

/// The MAC of the first up, non-loopback network interface.
pub fn discover(interfaces: &[Interface]) -> (mac: Option<[u8; 6]>)
    ensures
        mac is Some <==> first_address(interfaces@) is Some,
        mac is Some ==> mac->0@ == first_address(interfaces@)->0,
{
    let mut i: usize = 0;
    assert(interfaces@.skip(0) =~= interfaces@);
    while i < interfaces.len()
        invariant
            i <= interfaces@.len(),
            first_address(interfaces@) == first_address(interfaces@.skip(i as int)),
        decreases interfaces@.len() - i,
    {
        assert(interfaces@.skip(i as int).skip(1) =~= interfaces@.skip(i + 1));
        let interface = &interfaces[i];
        if interface.up && !interface.loopback {
            let mac = parse_mac(interface.address.as_str());
            if mac.is_some() {
                return mac;
            }
        }
        i += 1;
    }
    None
}

/// What is joined of pieces begins as the first does and ends as the last does.
proof fn lemma_joined_ends(pieces: Seq<Seq<char>>, c: char)
    requires
        pieces.len() > 0,
        forall|i: int| 0 <= i < pieces.len() ==> (#[trigger] pieces[i]).len() > 0,
    ensures
        text::joined(pieces, c).len() > 0,
        text::joined(pieces, c)[0] == pieces[0][0],
        text::joined(pieces, c).last() == pieces.last().last(),
    decreases pieces.len(),
{
    if pieces.len() > 1 {
        let rest = pieces.skip(1);
        assert(forall|i: int| 0 <= i < rest.len() ==> #[trigger] rest[i] == pieces[i + 1]);
        lemma_joined_ends(rest, c);
    }
}

/// An address is six bytes in hex, in either case, with colons between them, and
/// whatever the blanks around.
#[verifier::rlimit(40)]
pub proof fn law_a_mac_reads_back(lead: Seq<char>, mac: Seq<u8>, tail: Seq<char>, upper: bool)
    requires
        mac.len() == 6,
        forall|i: int| 0 <= i < lead.len() ==> #[trigger] lead[i] == ' ',
        forall|i: int| 0 <= i < tail.len() ==> #[trigger] tail[i] == ' ' || tail[i] == '\n',
    ensures
        ({
            let pairs = Seq::new(6, |i: int| number::hex(seq![mac[i]], upper));
            mac_of(lead + text::joined(pairs, ':') + tail) == Some(mac)
        }),
{
    let pairs = Seq::new(6, |i: int| number::hex(seq![mac[i]], upper));
    let none = Seq::<u8>::empty();
    assert forall|i: int| 0 <= i < 6 implies {
        &&& (#[trigger] pairs[i]).len() == 2
        &&& number::parsed_unsigned(pairs[i], 16, 255) == Some(mac[i] as int)
        &&& forall|j: int| 0 <= j < 2 ==> !text::is_space(#[trigger] pairs[i][j]) && pairs[i][j] != ':'
    } by {
        number::law_hex_reads_back(none, none, mac[i], upper);
        let pair = number::hex(seq![mac[i]], upper);
        assert forall|j: int| 0 <= j < 2 implies !text::is_space(#[trigger] pairs[i][j])
            && pairs[i][j] != ':' by {
            assert(pairs[i][j] == pair[j]);
        }
    }
    assert forall|i: int, j: int| 0 <= i < pairs.len() && 0 <= j < pairs[i].len() implies
        #[trigger] pairs[i][j] != ':' by {
        assert(pairs[i].len() == 2);
    }
    lemma_joined_ends(pairs, ':');
    text::law_pieces_are_cut_apart_again(pairs, ':');
    text::law_trimming_takes_the_blanks_off_the_ends(lead, text::joined(pairs, ':'), tail);
    let read = mac_of(lead + text::joined(pairs, ':') + tail);
    assert(read is Some);
    assert(read->0 =~= mac);
}

/// The address is that of the first interface that is up, is no loopback, and has
/// one; interfaces before it that lack any of these do not count.
pub proof fn law_the_first_usable_interface_counts(
    before: Seq<Interface>,
    usable: Interface,
    after: Seq<Interface>,
)
    requires
        forall|i: int|
            0 <= i < before.len() ==> !(#[trigger] before[i]).up || before[i].loopback || mac_of(
                before[i].address@,
            ) is None,
        usable.up,
        !usable.loopback,
        mac_of(usable.address@) is Some,
    ensures
        first_address(before + seq![usable] + after) == mac_of(usable.address@),
        first_address(before) is None,
    decreases before.len(),
{
    let all = before + seq![usable] + after;
    if before.len() == 0 {
        assert(all[0] == usable);
    } else {
        let rest = before.skip(1);
        assert(all[0] == before[0]);
        assert(forall|i: int| 0 <= i < rest.len() ==> #[trigger] rest[i] == before[i + 1]);
        assert(all.skip(1) =~= rest + seq![usable] + after);
        law_the_first_usable_interface_counts(rest, usable, after);
    }
}

/// Parts that are not six, or of which one is no byte in hex, are no address.
pub proof fn law_a_bad_mac_is_none(parts: Seq<Seq<char>>, i: int)
    requires
        0 <= i < parts.len(),
        forall|k: int| 0 <= k < parts.len() ==> (#[trigger] parts[k]).len() > 0,
        forall|k: int, j: int|
            0 <= k < parts.len() && 0 <= j < parts[k].len() ==> !text::is_space(
                #[trigger] parts[k][j],
            ) && parts[k][j] != ':',
        parts.len() != 6 || number::parsed_unsigned(parts[i], 16, 255) is None,
    ensures
        mac_of(text::joined(parts, ':')) is None,
{
    let none = Seq::<char>::empty();
    lemma_joined_ends(parts, ':');
    assert(!text::is_space(parts[0][0]));
    assert(!text::is_space(parts[parts.len() - 1][parts.last().len() - 1]));
    text::law_trimming_takes_the_blanks_off_the_ends(none, text::joined(parts, ':'), none);
    text::law_pieces_are_cut_apart_again(parts, ':');
}

} // verus!
