//! IP addresses, as the receiver uses them.

use vstd::prelude::*;

verus! {

/// An IPv4 or IPv6 address, by its octets.
#[derive(Debug, Clone, Copy, PartialEq, Eq)]
pub enum IpAddr {
    V4([u8; 4]),
    V6([u8; 16]),
}

/// Whether an IPv6 address is an IPv4 one in disguise: `::ffff:a.b.c.d`.
pub open spec fn is_v4_mapped(octets: Seq<u8>) -> bool {
    octets.take(12) == seq![0u8, 0, 0, 0, 0, 0, 0, 0, 0, 0, 0xff, 0xff]
}

impl IpAddr {
    /// The octets that stand for the address in an `Apple-Response`: four for
    /// IPv4, in disguise or not, and sixteen for any other.
    pub open spec fn significant(self) -> Seq<u8> {
        match self {
            IpAddr::V4(octets) => octets@,
            IpAddr::V6(octets) => if is_v4_mapped(octets@) {
                octets@.skip(12)
            } else {
                octets@
            },
        }
    }

    /// The address that stands for "any".
    pub open spec fn unspecified(self) -> bool {
        match self {
            IpAddr::V4(octets) => forall|i: int| 0 <= i < 4 ==> #[trigger] octets@[i] == 0,
            IpAddr::V6(octets) => forall|i: int| 0 <= i < 16 ==> #[trigger] octets@[i] == 0,
        }
    }

    /// The octets that stand for the address in an `Apple-Response`.
    pub fn significant_octets(&self) -> (octets: Vec<u8>)
        ensures
            octets@ == self.significant(),
            octets@.len() == 4 || octets@.len() == 16,
    {
        match self {
            IpAddr::V4(octets) => vstd::slice::slice_to_vec(octets.as_slice()),
            IpAddr::V6(octets) => {
                let all = octets.as_slice();
                if leading_zeros(all, 10) == 10 && all[10] == 0xff && all[11] == 0xff {
                    assert(octets@.take(12) =~= seq![0u8, 0, 0, 0, 0, 0, 0, 0, 0, 0, 0xff, 0xff]);
                    assert(octets@.skip(12) =~= all@.subrange(12, 16));
                    vstd::slice::slice_to_vec(vstd::slice::slice_subrange(all, 12, 16))
                } else {
                    proof {
                        let prefix = seq![0u8, 0, 0, 0, 0, 0, 0, 0, 0, 0, 0xff, 0xff];
                        if octets@.take(12) == prefix {
                            assert forall|i: int| 0 <= i < 10 implies #[trigger] all@[i] == 0 by {
                                assert(octets@.take(12)[i] == prefix[i]);
                            }
                            assert(octets@.take(12)[10] == prefix[10]);
                            assert(octets@.take(12)[11] == prefix[11]);
                        }
                    }
                    vstd::slice::slice_to_vec(all)
                }
            },
        }
    }

    /// Whether this is the unspecified address.
    pub fn is_unspecified(&self) -> (any: bool)
        ensures
            any == self.unspecified(),
    {
        match self {
            IpAddr::V4(octets) => leading_zeros(octets.as_slice(), 4) == 4,
            IpAddr::V6(octets) => leading_zeros(octets.as_slice(), 16) == 16,
        }
    }

    /// Where to bind the sockets of a session whose control connection arrived
    /// on this address: here, so that the client can reach them, or on every
    /// IPv4 interface if the address says nothing.
    pub fn bind_address(self) -> (bind: IpAddr)
        ensures
            bind == (if self.unspecified() {
                IpAddr::V4([0, 0, 0, 0])
            } else {
                self
            }),
    {
        if self.is_unspecified() {
            IpAddr::V4([0, 0, 0, 0])
        } else {
            self
        }
    }
}

/// How many of the first `n` bytes are zero before one that is not.
fn leading_zeros(bytes: &[u8], n: usize) -> (zeros: usize)
    requires
        n <= bytes@.len(),
    ensures
        zeros <= n,
        forall|i: int| 0 <= i < zeros ==> #[trigger] bytes@[i] == 0,
        zeros < n ==> bytes@[zeros as int] != 0,
{
    let mut i: usize = 0;
    while i < n && bytes[i] == 0
        invariant
            i <= n <= bytes@.len(),
            forall|j: int| 0 <= j < i ==> #[trigger] bytes@[j] == 0,
        decreases n - i,
    {
        i += 1;
    }
    i
}

/// An IPv4 address is signed by its four octets, also where it comes as
/// `::ffff:a.b.c.d`; any other IPv6 address by its sixteen.
pub proof fn law_addresses_are_signed_by_their_octets(v4: [u8; 4], v6: [u8; 16])
    ensures
        IpAddr::V4(v4).significant() == seq![v4@[0], v4@[1], v4@[2], v4@[3]],
        (forall|i: int| 0 <= i < 10 ==> #[trigger] v6@[i] == 0) && v6@[10] == 0xff && v6@[11]
            == 0xff ==> IpAddr::V6(v6).significant() == seq![v6@[12], v6@[13], v6@[14], v6@[15]],
        v6@[10] != 0xff || v6@[11] != 0xff ==> IpAddr::V6(v6).significant() == v6@,
        (exists|i: int| 0 <= i < 10 && #[trigger] v6@[i] != 0) ==> IpAddr::V6(v6).significant()
            == v6@,
{
    let prefix = seq![0u8, 0, 0, 0, 0, 0, 0, 0, 0, 0, 0xff, 0xff];
    assert(IpAddr::V4(v4).significant() =~= seq![v4@[0], v4@[1], v4@[2], v4@[3]]);
    if (forall|i: int| 0 <= i < 10 ==> #[trigger] v6@[i] == 0) && v6@[10] == 0xff && v6@[11]
        == 0xff {
        assert(v6@.take(12) =~= prefix);
        assert(v6@.skip(12) =~= seq![v6@[12], v6@[13], v6@[14], v6@[15]]);
    }
    if is_v4_mapped(v6@) {
        assert forall|i: int| 0 <= i < 12 implies #[trigger] v6@[i] == prefix[i] by {
            assert(v6@.take(12)[i] == prefix[i]);
        }
    }
}

/// The unspecified address is all zeros, of either kind, and no other is.
pub proof fn law_only_zeros_are_unspecified(ip: IpAddr)
    ensures
        ip matches IpAddr::V4(v4) ==> (ip.unspecified() <==> v4@ == seq![0u8, 0, 0, 0]),
        ip matches IpAddr::V6(v6) ==> (ip.unspecified() <==> v6@ == Seq::new(16, |i: int| 0u8)),
{
    match ip {
        IpAddr::V4(v4) => {
            if ip.unspecified() {
                assert(v4@ =~= seq![0u8, 0, 0, 0]);
            }
        },
        IpAddr::V6(v6) => {
            if ip.unspecified() {
                assert(v6@ =~= Seq::new(16, |i: int| 0u8));
            }
        },
    }
}

} // verus!
