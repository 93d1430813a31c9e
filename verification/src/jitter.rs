//! Sequence-ordered jitter buffer for RAOP audio.
//!
//! UDP audio packets arrive out of order, duplicated, or not at all. This
//! buffer accepts them keyed by their 16-bit RTP sequence number and releases
//! them strictly in order. Gaps are reported for retransmission; a gap that is
//! not filled before the buffer runs too far ahead is skipped and reported as
//! lost, so that the player can conceal it with silence and keep its timing.

use vstd::prelude::*;

verus! {

/// Capacity in packets. A packet this far ahead of the next one to deliver is
/// dropped on insertion, so it can never alias a live slot.
pub const CAPACITY: usize = 512;

/// The lead (highest received sequence minus the next to deliver) at which the
/// buffer gives up on a missing packet. About one second of audio.
///
/// It stays strictly below [`CAPACITY`]: packets that far ahead are dropped,
/// so with the two equal the skip could never happen and a gap the sender
/// never fills would stall the stream.
pub const MAX_LEAD: usize = 128;

/// The signed distance from `b` to `a` on the 16-bit circle.
pub open spec fn seq_distance(a: u16, b: u16) -> int {
    if a - b >= 0x8000 {
        a - b - 0x1_0000
    } else if a - b < -0x8000 {
        a - b + 0x1_0000
    } else {
        a - b
    }
}

/// The sequence number `k` steps after `s`.
pub open spec fn seq_plus(s: u16, k: int) -> u16 {
    ((s + k) % 0x1_0000) as u16
}

/// Signed distance from `b` to `a` on the 16-bit sequence circle: positive
/// when `a` is ahead of `b`, across the wrap from 0xFFFF to 0x0000 too.
pub fn seq_diff(a: u16, b: u16) -> (d: i32)
    ensures
        d == seq_distance(a, b),
{
    let d: i32 = a as i32 - b as i32;
    if d >= 0x8000 {
        d - 0x1_0000
    } else if d < -0x8000 {
        d + 0x1_0000
    } else {
        d
    }
}

/// The sequence number after `s`, wrapping at 0xFFFF.
pub fn seq_next(s: u16) -> (n: u16)
    ensures
        n == seq_plus(s, 1),
{
    if s == 0xFFFF {
        0
    } else {
        s + 1
    }
}

/// What [`JitterBuffer::pop_ready`] hands to the player, in order.
#[derive(Debug, PartialEq, Eq)]
pub enum Delivery {
    /// A recovered ALAC frame for this sequence number.
    Packet { seq: u16, frame: Vec<u8> },
    /// This sequence number was lost; the player inserts silence.
    Lost { seq: u16 },
}

/// What a [`JitterBuffer`] holds, as a mathematical value.
pub struct JitterState {
    /// The next sequence number to deliver, once one is known.
    pub next: Option<u16>,
    /// The highest sequence number stored since the last reset.
    pub highest: Option<u16>,
    /// The frames waiting for delivery, by sequence number.
    pub held: Map<u16, Seq<u8>>,
    /// The lead at which a missing packet is given up.
    pub max_lead: nat,
}

impl JitterState {
    /// A state that a buffer can be in.
    pub open spec fn wf(self) -> bool {
        &&& self.max_lead < CAPACITY
        &&& self.next is None ==> self.highest is None
        &&& self.highest is None ==> self.held == Map::<u16, Seq<u8>>::empty()
        &&& self.highest is Some ==> {
            &&& -1 <= self.lead() < CAPACITY
            &&& self.lead() >= 0 ==> self.held.dom().contains(self.highest->0)
        }
        &&& forall|s: u16| #[trigger]
            self.held.dom().contains(s) ==> 0 <= seq_distance(s, self.next->0) <= self.lead()
    }

    /// How far the highest stored packet is ahead of the next to deliver.
    pub open spec fn lead(self) -> int {
        seq_distance(self.highest->0, self.next->0)
    }

    /// The buffer after a reset to `next`: nothing held.
    pub open spec fn reset_to(self, next: Option<u16>) -> JitterState {
        JitterState { next, highest: None, held: Map::empty(), ..self }
    }

    /// Whether a packet numbered `seq` is stored: not older than the next to
    /// deliver, and within one ring of it. The first packet always is.
    pub open spec fn accepts(self, seq: u16) -> bool {
        self.next is None || 0 <= seq_distance(seq, self.next->0) < CAPACITY
    }

    /// The buffer after packet `seq` arrived with this frame.
    pub open spec fn inserted(self, seq: u16, frame: Seq<u8>) -> JitterState {
        if !self.accepts(seq) {
            self
        } else {
            JitterState {
                next: if self.next is None {
                    Some(seq)
                } else {
                    self.next
                },
                highest: if self.highest is None || seq_distance(seq, self.highest->0) > 0 {
                    Some(seq)
                } else {
                    self.highest
                },
                held: self.held.insert(seq, frame),
                ..self
            }
        }
    }

    /// Whether the packet `i` places after the front can go once all before it
    /// have gone: it is held, or the lead over it is long enough to give it up.
    pub open spec fn ready(self, i: int) -> bool {
        self.highest is Some && (self.held.dom().contains(seq_plus(self.next->0, i)) || self.lead()
            - i >= self.max_lead)
    }

    /// Whether exactly the first `k` packets are ready.
    pub open spec fn ready_count(self, k: int) -> bool {
        &&& 0 <= k
        &&& forall|i: int| 0 <= i < k ==> #[trigger] self.ready(i)
        &&& !self.ready(k)
    }

    /// Whether `d` is what the packet `i` places after the front comes out as.
    pub open spec fn delivers(self, i: int, d: Delivery) -> bool {
        let s = seq_plus(self.next->0, i);
        match d {
            Delivery::Packet { seq, frame } => seq == s && self.held.dom().contains(s) && frame@
                == self.held[s],
            Delivery::Lost { seq } => seq == s && !self.held.dom().contains(s),
        }
    }

    /// The buffer after its first `k` packets have gone.
    pub open spec fn advanced(self, k: int) -> JitterState {
        if k == 0 {
            self
        } else {
            JitterState {
                next: Some(seq_plus(self.next->0, k)),
                held: Map::new(
                    |s: u16|
                        self.held.dom().contains(s) && seq_distance(s, self.next->0) >= k,
                    |s: u16| self.held[s],
                ),
                ..self
            }
        }
    }

    /// The sequence numbers from the front to the highest stored one, in order.
    pub open spec fn span(self) -> Seq<u16> {
        if self.highest is Some {
            Seq::new((self.lead() + 1) as nat, |i: int| seq_plus(self.next->0, i))
        } else {
            Seq::empty()
        }
    }

    /// Those of the span that are not held.
    pub open spec fn gaps(self) -> Seq<u16> {
        self.span().filter(|s: u16| !self.held.dom().contains(s))
    }
}

/// The slot of a sequence number.
spec fn slot_of(seq: u16) -> int {
    seq as int % CAPACITY as int
}

/// Within one ring of the front, two sequence numbers share a slot only if
/// they are the same.
proof fn lemma_slots_do_not_alias(next: u16, a: u16, b: u16)
    requires
        0 <= seq_distance(a, next) < CAPACITY,
        0 <= seq_distance(b, next) < CAPACITY,
        slot_of(a) == slot_of(b),
    ensures
        a == b,
{
}

proof fn lemma_seq_steps(n: u16, i: int)
    requires
        0 <= i < 0x8000,
    ensures
        seq_distance(seq_plus(n, i), n) == i,
        seq_plus(seq_plus(n, i), 1) == seq_plus(n, i + 1),
{
}

proof fn lemma_distances_subtract(n: u16, h: u16, i: int)
    requires
        -1 <= seq_distance(h, n) < CAPACITY,
        0 <= i <= seq_distance(h, n) + 1,
    ensures
        seq_distance(h, seq_plus(n, i)) == seq_distance(h, n) - i,
{
}

/// Insertion keeps a state that a buffer can be in.
pub proof fn lemma_inserted_wf(m: JitterState, seq: u16, frame: Seq<u8>)
    requires
        m.wf(),
    ensures
        m.inserted(seq, frame).wf(),
{
    let after = m.inserted(seq, frame);
    if m.accepts(seq) {
        if m.highest is Some {
            let n = m.next->0;
            let h = m.highest->0;
            assert(seq_distance(seq, h) > 0 <==> seq_distance(seq, n) > seq_distance(h, n));
        }
        assert forall|s: u16| #[trigger] after.held.dom().contains(s) implies 0 <= seq_distance(
            s,
            after.next->0,
        ) <= after.lead() by {
            if s != seq {
                assert(m.held.dom().contains(s));
            }
        }
    }
}

/// Delivery keeps a state that a buffer can be in, and no more goes at once than
/// a buffer holds.
pub proof fn lemma_advanced_wf(m: JitterState, k: int)
    requires
        m.wf(),
        m.ready_count(k),
    ensures
        k <= CAPACITY,
        m.advanced(k).wf(),
{
    if k > 0 {
        assert(m.ready(0));
        let n = m.next->0;
        let after = m.advanced(k);
        if k > m.lead() + 1 {
            assert(m.ready(m.lead() + 1));
            lemma_seq_steps(n, m.lead() + 1);
        }
        lemma_seq_steps(n, k);
        assert forall|s: u16| #[trigger] after.held.dom().contains(s) implies 0 <= seq_distance(
            s,
            after.next->0,
        ) <= after.lead() by {
            assert(m.held.dom().contains(s));
        }
        assert(after.lead() == m.lead() - k);
    }
}

/// A buffer that reorders packets by their sequence number.
pub struct JitterBuffer {
    slots: Vec<Option<Vec<u8>>>,
    next_seq: Option<u16>,
    highest_seq: Option<u16>,
    max_lead: usize,
}

impl View for JitterBuffer {
    type V = JitterState;

    closed spec fn view(&self) -> JitterState {
        JitterState {
            next: self.next_seq,
            highest: self.highest_seq,
            held: Map::new(
                |s: u16|
                    self.next_seq is Some && 0 <= seq_distance(s, self.next_seq->0) < CAPACITY
                        && self.slots@[slot_of(s)] is Some,
                |s: u16| self.slots@[slot_of(s)]->0@,
            ),
            max_lead: self.max_lead as nat,
        }
    }
}

impl JitterBuffer {
    /// The representation is sound: one slot per sequence number of the ring,
    /// and nothing in a slot that does not belong to a held packet.
    pub closed spec fn wf(&self) -> bool {
        &&& self.slots@.len() == CAPACITY
        &&& self.next_seq is None ==> forall|i: int|
            0 <= i < CAPACITY ==> #[trigger] self.slots@[i] is None
        &&& self@.wf()
    }

    /// What a sound representation stands for is sound.
    pub proof fn lemma_wf(&self)
        requires
            self.wf(),
        ensures
            self@.wf(),
    {
    }

    /// An empty buffer that gives up on a gap at a lead of `max_lead`.
    pub fn new(max_lead: usize) -> (buffer: JitterBuffer)
        requires
            max_lead < CAPACITY,
        ensures
            buffer.wf(),
            buffer@.next is None,
            buffer@.highest is None,
            buffer@.held == Map::<u16, Seq<u8>>::empty(),
            buffer@.max_lead == max_lead,
    {
        let mut slots: Vec<Option<Vec<u8>>> = Vec::new();
        let mut i: usize = 0;
        while i < CAPACITY
            invariant
                i <= CAPACITY,
                slots@.len() == i,
                forall|j: int| 0 <= j < i ==> #[trigger] slots@[j] is None,
            decreases CAPACITY - i,
        {
            slots.push(None);
            i += 1;
        }
        let buffer = JitterBuffer { slots, next_seq: None, highest_seq: None, max_lead };
        assert(buffer@.held =~= Map::<u16, Seq<u8>>::empty());
        buffer
    }

    /// Discard everything and (optionally) set the next expected sequence.
    /// Used on FLUSH so that stale audio is not played.
    pub fn reset(&mut self, next_seq: Option<u16>)
        requires
            old(self).wf(),
        ensures
            final(self).wf(),
            final(self)@ == old(self)@.reset_to(next_seq),
            final(self)@.held == Map::<u16, Seq<u8>>::empty(),
    {
        let mut i: usize = 0;
        while i < CAPACITY
            invariant
                i <= CAPACITY,
                self.slots@.len() == CAPACITY,
                self.max_lead == old(self).max_lead,
                forall|j: int| 0 <= j < i ==> #[trigger] self.slots@[j] is None,
            decreases CAPACITY - i,
        {
            self.slots.set(i, None);
            i += 1;
        }
        self.next_seq = next_seq;
        self.highest_seq = None;
        assert(self@.held =~= Map::<u16, Seq<u8>>::empty());
    }

    /// Insert a received packet. Packets older than the next to deliver, or so
    /// far ahead that they would alias a live slot, are dropped.
    pub fn insert(&mut self, seq: u16, frame: Vec<u8>)
        requires
            old(self).wf(),
        ensures
            final(self).wf(),
            final(self)@ == old(self)@.inserted(seq, frame@),
    {
        let next: u16 = match self.next_seq {
            Some(n) => n,
            None => {
                self.next_seq = Some(seq);
                seq
            },
        };
        let ahead: i32 = seq_diff(seq, next);
        if ahead < 0 || ahead >= CAPACITY as i32 {
            return;
        }
        let slot: usize = seq as usize % CAPACITY;
        self.slots.set(slot, Some(frame));
        let higher = match self.highest_seq {
            None => true,
            Some(h) => seq_diff(seq, h) > 0,
        };
        if higher {
            self.highest_seq = Some(seq);
        }
        proof {
            let expected = old(self)@.inserted(seq, frame@);
            lemma_inserted_wf(old(self)@, seq, frame@);
            assert forall|s: u16|
                self@.held.dom().contains(s) == #[trigger] expected.held.dom().contains(s) && (
                self@.held.dom().contains(s) ==> self@.held[s] == expected.held[s]) by {
                if 0 <= seq_distance(s, next) < CAPACITY && slot_of(s) == slot_of(seq) {
                    lemma_slots_do_not_alias(next, s, seq);
                }
            }
            assert(self@.held =~= expected.held);
            assert(self@ == expected);
        }
    }

    /// Release as many in-order packets as are ready. Stops at the first gap
    /// unless the buffer has run `max_lead` ahead of it, in which case the
    /// missing packet is skipped and reported lost, so that playback proceeds.
    pub fn pop_ready(&mut self) -> (out: Vec<Delivery>)
        requires
            old(self).wf(),
        ensures
            final(self).wf(),
            old(self)@.ready_count(out@.len() as int),
            forall|i: int|
                0 <= i < out@.len() ==> old(self)@.delivers(i, #[trigger] out@[i]),
            final(self)@ == old(self)@.advanced(out@.len() as int),
            forall|i: int|
                0 <= i < out@.len() ==> (#[trigger] out@[i] matches Delivery::Lost { seq } ==> {
                    &&& !old(self)@.held.dom().contains(seq)
                    &&& seq_distance(old(self)@.highest->0, seq) >= old(self)@.max_lead
                }),
            final(self)@.highest is Some ==> {
                &&& !final(self)@.held.dom().contains(final(self)@.next->0)
                &&& seq_distance(final(self)@.highest->0, final(self)@.next->0)
                    < old(self)@.max_lead
            },
    {
        let mut out: Vec<Delivery> = Vec::new();
        let highest: u16 = match self.highest_seq {
            Some(h) => h,
            None => {
                return out;
            },
        };
        let mut next: u16 = match self.next_seq {
            Some(n) => n,
            None => {
                return out;
            },
        };
        let ghost m = old(self)@;
        assert(m.advanced(0) == m);
        loop
            invariant_except_break
                forall|i: int| 0 <= i < out@.len() ==> #[trigger] m.ready(i),
            invariant
                m == old(self)@,
                m.wf(),
                self.wf(),
                m.highest == Some(highest),
                m.next is Some,
                self.next_seq == Some(next),
                next == seq_plus(m.next->0, out@.len() as int),
                out@.len() <= m.lead() + 1,
                self@ == m.advanced(out@.len() as int),
                forall|i: int| 0 <= i < out@.len() ==> m.delivers(i, #[trigger] out@[i]),
            ensures
                m.ready_count(out@.len() as int),
            decreases m.lead() + 1 - out@.len(),
        {
            let ghost k = out@.len() as int;
            let slot: usize = next as usize % CAPACITY;
            let ghost before = self@;
            let ghost slots_before = self.slots@;
            let mut taken: Option<Vec<u8>> = None;
            core::mem::swap(&mut taken, &mut self.slots[slot]);
            proof {
                lemma_seq_steps(m.next->0, k);
                assert(before.held.dom().contains(next) == (slots_before[slot as int] is Some));
                assert(m.held.dom().contains(next) == before.held.dom().contains(next));
                assert(m.held.dom().contains(next) ==> m.held[next] == before.held[next]);
                assert(before.held.dom().contains(next) ==> before.held[next]
                    == slots_before[slot as int]->0@);
            }
            match taken {
                Some(frame) => {
                    proof {
                        assert(m.ready(k));
                        assert(m.delivers(k, Delivery::Packet { seq: next, frame }));
                    }
                    out.push(Delivery::Packet { seq: next, frame });
                },
                None => {
                    assert(self.slots@ =~= slots_before);
                    if seq_diff(highest, next) >= self.max_lead as i32 {
                        out.push(Delivery::Lost { seq: next });
                    } else {
                        break ;
                    }
                },
            }
            let ghost front = next;
            next = seq_next(next);
            self.next_seq = Some(next);
            proof {
                lemma_popped(m, k);
                lemma_seq_steps(m.next->0, k + 1);
                assert forall|s: u16|
                    self@.held.dom().contains(s) == #[trigger] m.advanced(
                        k + 1,
                    ).held.dom().contains(s) && (self@.held.dom().contains(s) ==> self@.held[s]
                        == m.held[s]) by {
                    if m.held.dom().contains(s) && seq_distance(s, m.next->0) >= k + 1 {
                        assert(before.held.dom().contains(s));
                        assert(seq_distance(s, next) == seq_distance(s, m.next->0) - (k + 1));
                        if slot_of(s) == slot_of(front) {
                            lemma_slots_do_not_alias(front, s, front);
                        }
                    }
                    if self@.held.dom().contains(s) {
                        assert(slot_of(s) != slot_of(front));
                        assert(seq_distance(s, front) == seq_distance(s, next) + 1);
                        assert(before.held.dom().contains(s));
                        assert(seq_distance(s, m.next->0) == seq_distance(s, front) + k);
                        assert(self.slots@[slot_of(s)] == slots_before[slot_of(s)]);
                        assert(before.held[s] == m.held[s]);
                        assert(m.held.dom().contains(s));
                        assert(m.advanced(k + 1).held.dom().contains(s));
                        assert(self@.held[s] == m.held[s]);
                    } else {
                        assert(!m.advanced(k + 1).held.dom().contains(s));
                    }
                }
                assert(self@.held =~= m.advanced(k + 1).held);
            }
        }
        proof {
            let k = out@.len() as int;
            lemma_seq_steps(m.next->0, k);
            assert forall|i: int| 0 <= i < k implies (#[trigger] out@[i] matches Delivery::Lost {
                seq,
            } ==> {
                &&& !m.held.dom().contains(seq)
                &&& seq_distance(m.highest->0, seq) >= m.max_lead
            }) by {
                assert(m.delivers(i, out@[i]));
                assert(m.ready(i));
                lemma_seq_steps(m.next->0, i);
                lemma_distances_subtract(m.next->0, m.highest->0, i);
            }
            assert(!m.ready(k));
            lemma_distances_subtract(m.next->0, m.highest->0, k);
        }
        out
    }

    /// Missing sequence numbers between the next to deliver and the highest
    /// received, for the retransmit requester.
    pub fn missing(&self) -> (missing: Vec<u16>)
        requires
            self.wf(),
        ensures
            missing@ == self@.gaps(),
    {
        let mut missing: Vec<u16> = Vec::new();
        let ghost not_held = |s: u16| !self@.held.dom().contains(s);
        if let (Some(next), Some(highest)) = (self.next_seq, self.highest_seq) {
            let mut seq: u16 = next;
            let mut i: i32 = 0;
            let lead: i32 = seq_diff(highest, next);
            while i <= lead
                invariant
                    self.wf(),
                    self@.next == Some(next),
                    self@.highest == Some(highest),
                    lead == self@.lead(),
                    0 <= i <= lead + 1,
                    lead < CAPACITY,
                    seq == seq_plus(next, i as int),
                    not_held == (|s: u16| !self@.held.dom().contains(s)),
                    missing@ == self@.span().take(i as int).filter(not_held),
                decreases lead + 1 - i,
            {
                proof {
                    reveal(Seq::filter);
                    lemma_seq_steps(next, i as int);
                    let upto = self@.span().take(i + 1);
                    assert(upto.drop_last() =~= self@.span().take(i as int));
                    assert(upto.last() == seq);
                }
                if self.slots[seq as usize % CAPACITY].is_none() {
                    missing.push(seq);
                }
                seq = seq_next(seq);
                i += 1;
            }
            assert(self@.span().take(lead + 1) =~= self@.span());
        } else {
            reveal(Seq::filter);
        }
        missing
    }
}

impl Default for JitterBuffer {
    fn default() -> (buffer: JitterBuffer)
        ensures
            buffer.wf(),
            buffer@.next is None,
            buffer@.highest is None,
            buffer@.held == Map::<u16, Seq<u8>>::empty(),
            buffer@.max_lead == MAX_LEAD,
            buffer@.max_lead == 128,
    {
        JitterBuffer::new(MAX_LEAD)
    }
}

/// Delivering one more packet keeps a state that a buffer can be in.
proof fn lemma_popped(m: JitterState, k: int)
    requires
        m.wf(),
        m.ready(k),
        0 <= k <= m.lead() + 1,
    ensures
        k <= m.lead(),
        m.advanced(k + 1).wf(),
{
    lemma_seq_steps(m.next->0, k);
    if k == m.lead() + 1 {
        assert(m.held.dom().contains(seq_plus(m.next->0, k)));
        assert(false);
    }
    lemma_seq_steps(m.next->0, k + 1);
    let after = m.advanced(k + 1);
    assert(after.lead() == m.lead() - (k + 1));
    assert forall|s: u16| #[trigger] after.held.dom().contains(s) implies 0 <= seq_distance(
        s,
        after.next->0,
    ) <= after.lead() by {
        assert(m.held.dom().contains(s));
        assert(seq_distance(s, after.next->0) == seq_distance(s, m.next->0) - (k + 1));
    }
}

/// A packet older than the next to deliver changes nothing: what has been
/// delivered, or given up, is never delivered again.
pub proof fn law_late_packets_are_dropped(m: JitterState, seq: u16, frame: Seq<u8>)
    requires
        m.next is Some,
        seq_distance(seq, m.next->0) < 0,
    ensures
        m.inserted(seq, frame) == m,
{
}

/// The order in which two different packets arrive does not matter once the
/// front of the stream is known.
pub proof fn law_arrival_order_does_not_matter(
    m: JitterState,
    a: u16,
    frame_a: Seq<u8>,
    b: u16,
    frame_b: Seq<u8>,
)
    requires
        m.wf(),
        m.next is Some,
        a != b,
    ensures
        m.inserted(a, frame_a).inserted(b, frame_b) == m.inserted(b, frame_b).inserted(a, frame_a),
{
    let ab = m.inserted(a, frame_a).inserted(b, frame_b);
    let ba = m.inserted(b, frame_b).inserted(a, frame_a);
    lemma_inserted_wf(m, a, frame_a);
    lemma_inserted_wf(m, b, frame_b);
    assert(ab.held =~= ba.held);
    let n = m.next->0;
    if m.accepts(a) && m.accepts(b) {
        assert(seq_distance(a, b) > 0 <==> seq_distance(a, n) > seq_distance(b, n));
        if m.highest is Some {
            let h = m.highest->0;
            assert(seq_distance(a, h) > 0 <==> seq_distance(a, n) > seq_distance(h, n));
            assert(seq_distance(b, h) > 0 <==> seq_distance(b, n) > seq_distance(h, n));
        }
    }
    assert(ab.highest == ba.highest);
}

/// A gap never stalls the stream: as soon as a packet `max_lead` or more ahead
/// of the front is stored, the front is ready, whether or not it ever arrives.
pub proof fn law_a_permanent_gap_is_skipped(m: JitterState, seq: u16, frame: Seq<u8>)
    requires
        m.wf(),
        m.next is Some,
        m.max_lead <= seq_distance(seq, m.next->0) < CAPACITY,
    ensures
        m.inserted(seq, frame).ready(0),
{
    lemma_inserted_wf(m, seq, frame);
    assert(m.inserted(seq, frame).held.dom().contains(seq));
}

/// The distance between two sequence numbers is the shorter way round the
/// 16-bit circle, and stepping goes round it.
pub proof fn law_sequence_numbers_go_round_a_circle(a: u16, b: u16, k: int)
    ensures
        -0x8000 <= seq_distance(a, b) < 0x8000,
        (a - b - seq_distance(a, b)) % 0x1_0000 == 0,
        seq_plus(b, seq_distance(a, b)) == a,
        (b + k - seq_plus(b, k)) % 0x1_0000 == 0,
{
}

/// A gap is waited for: as long as the packet at the front is not held and the
/// highest stored packet is fewer than `max_lead` places ahead of it, nothing is
/// released and nothing is given up.
pub proof fn law_a_gap_is_waited_for(m: JitterState, n: u16, ahead: int, k: int)
    requires
        m.wf(),
        m.next == Some(n),
        !m.held.dom().contains(n),
        0 <= ahead < m.max_lead,
        m.highest == Some(((n + ahead) % 0x1_0000) as u16),
        m.ready_count(k),
    ensures
        k == 0,
        m.ready_count(0),
        m.advanced(k) == m,
{
    assert(seq_plus(n, 0) == n);
    if k > 0 {
        assert(m.ready(0));
    }
}

/// A packet is given up only when the stream has run `max_lead` or more ahead of
/// it, and only if it is not held.
pub proof fn law_packets_are_given_up_only_at_the_lead(
    m: JitterState,
    n: u16,
    ahead: int,
    k: int,
    i: int,
)
    requires
        m.wf(),
        m.next == Some(n),
        0 <= ahead < 512,
        m.highest == Some(((n + ahead) % 0x1_0000) as u16),
        m.ready_count(k),
        0 <= i < k,
        !m.held.dom().contains(((n + i) % 0x1_0000) as u16),
    ensures
        ahead - i >= m.max_lead,
{
    assert(m.ready(i));
}

/// Nothing that can go is held back: what is released ends at a packet that is
/// not held and that the stream is less than `max_lead` ahead of.
pub proof fn law_nothing_ready_is_held_back(m: JitterState, n: u16, ahead: int, k: int)
    requires
        m.wf(),
        m.next == Some(n),
        0 <= ahead < 512,
        m.highest == Some(((n + ahead) % 0x1_0000) as u16),
        m.ready_count(k),
    ensures
        k <= ahead + 1,
        !m.held.dom().contains(((n + k) % 0x1_0000) as u16),
        ahead - k < m.max_lead,
{
    lemma_advanced_wf(m, k);
    assert(!m.ready(k));
    if k > m.lead() + 1 {
        assert(m.ready(m.lead() + 1));
        lemma_seq_steps(n, m.lead() + 1);
    }
}

/// What comes out is the stream itself: the packets from the front on, each with
/// the frame that is held for it, or lost where none is.
pub proof fn law_deliveries_follow_the_stream(
    m: JitterState,
    n: u16,
    out: Seq<Delivery>,
    i: int,
)
    requires
        m.next == Some(n),
        0 <= i < out.len(),
        m.delivers(i, out[i]),
    ensures
        match out[i] {
            Delivery::Packet { seq, frame } => {
                &&& (n + i - seq) % 0x1_0000 == 0
                &&& m.held.dom().contains(seq)
                &&& m.held[seq] == frame@
            },
            Delivery::Lost { seq } => (n + i - seq) % 0x1_0000 == 0 && !m.held.dom().contains(seq),
        },
{
}

/// A packet within 512 places of the front, and the first of a stream, is kept
/// until it is released; nothing else that is held changes.
pub proof fn law_a_packet_in_reach_is_kept(m: JitterState, n: u16, ahead: int, frame: Seq<u8>)
    requires
        m.wf(),
        0 <= ahead < 512,
        m.next is Some ==> m.next == Some(n),
        m.next is None ==> ahead == 0,
    ensures
        ({
            let seq = ((n + ahead) % 0x1_0000) as u16;
            let after = m.inserted(seq, frame);
            &&& after.held == m.held.insert(seq, frame)
            &&& after.next == Some(n)
            &&& after.max_lead == m.max_lead
            &&& after.highest is Some
            &&& seq_distance(after.highest->0, n) == (if m.highest is Some && seq_distance(
                m.highest->0,
                n,
            ) > ahead {
                seq_distance(m.highest->0, n)
            } else {
                ahead
            })
        }),
{
    let seq = ((n + ahead) % 0x1_0000) as u16;
    assert(seq_distance(seq, n) == ahead);
    if m.highest is Some {
        assert(seq_distance(seq, m.highest->0) > 0 <==> ahead > seq_distance(m.highest->0, n));
    }
}

/// A packet behind the front, or 512 places or more ahead of it, changes
/// nothing.
pub proof fn law_a_packet_out_of_reach_changes_nothing(
    m: JitterState,
    n: u16,
    ahead: int,
    frame: Seq<u8>,
)
    requires
        m.next == Some(n),
        512 <= ahead < 0x1_0000,
    ensures
        m.inserted(((n + ahead) % 0x1_0000) as u16, frame) == m,
{
}

/// A release takes the packets that it released and no others.
pub proof fn law_a_release_keeps_the_rest(m: JitterState, n: u16, k: int, s: u16)
    requires
        m.wf(),
        m.next == Some(n),
        m.ready_count(k),
    ensures
        m.advanced(k).next == Some(((n + k) % 0x1_0000) as u16),
        m.advanced(k).highest == m.highest,
        m.advanced(k).max_lead == m.max_lead,
        m.advanced(k).held.dom().contains(s) <==> m.held.dom().contains(s) && seq_distance(s, n)
            >= k,
        m.advanced(k).held.dom().contains(s) ==> m.advanced(k).held[s] == m.held[s],
{
    if k == 0 {
        if m.held.dom().contains(s) {
            assert(0 <= seq_distance(s, n));
        }
    }
}

/// What is asked for again is exactly what is not held, from the front to the
/// highest stored packet, each once and in order.
pub proof fn law_the_missing_are_those_not_held(m: JitterState, n: u16, h: u16, s: u16)
    requires
        m.wf(),
        m.next == Some(n),
        m.highest == Some(h),
    ensures
        m.gaps().contains(s) <==> 0 <= seq_distance(s, n) <= seq_distance(h, n)
            && !m.held.dom().contains(s),
        forall|i: int, j: int|
            0 <= i < j < m.gaps().len() ==> seq_distance(#[trigger] m.gaps()[i], n) < seq_distance(
                #[trigger] m.gaps()[j],
                n,
            ),
{
    let span = m.span();
    let not_held = |x: u16| !m.held.dom().contains(x);
    assert forall|i: int, j: int| 0 <= i < j < span.len() implies seq_distance(
        #[trigger] span[i],
        n,
    ) < seq_distance(#[trigger] span[j], n) by {
        lemma_seq_steps(n, i);
        lemma_seq_steps(n, j);
    }
    lemma_filter_keeps_order(span, not_held, n);
    if m.gaps().contains(s) {
        let g = choose|g: int| 0 <= g < m.gaps().len() && m.gaps()[g] == s;
        assert(span.contains(m.gaps()[g]));
        let k = choose|k: int| 0 <= k < span.len() && span[k] == s;
        lemma_seq_steps(n, k);
    }
    if 0 <= seq_distance(s, n) <= seq_distance(h, n) && !m.held.dom().contains(s) {
        let k = seq_distance(s, n);
        assert(span[k] == s);
        span.lemma_filter_contains(not_held, k);
    }
}

proof fn lemma_filter_keeps_order(span: Seq<u16>, keep: spec_fn(u16) -> bool, n: u16)
    requires
        forall|i: int, j: int|
            0 <= i < j < span.len() ==> seq_distance(#[trigger] span[i], n) < seq_distance(
                #[trigger] span[j],
                n,
            ),
    ensures
        forall|i: int, j: int|
            0 <= i < j < span.filter(keep).len() ==> seq_distance(
                #[trigger] span.filter(keep)[i],
                n,
            ) < seq_distance(#[trigger] span.filter(keep)[j], n),
        forall|i: int|
            0 <= i < span.filter(keep).len() ==> keep(#[trigger] span.filter(keep)[i])
                && span.contains(span.filter(keep)[i]),
    decreases span.len(),
{
    reveal(Seq::filter);
    if span.len() > 0 {
        let before = span.drop_last();
        assert forall|i: int, j: int| 0 <= i < j < before.len() implies seq_distance(
            #[trigger] before[i],
            n,
        ) < seq_distance(#[trigger] before[j], n) by {
            assert(before[i] == span[i] && before[j] == span[j]);
        }
        lemma_filter_keeps_order(before, keep, n);
        let kept = before.filter(keep);
        let last = span[span.len() - 1];
        assert forall|i: int| 0 <= i < kept.len() implies #[trigger] span.contains(kept[i])
            && seq_distance(kept[i], n) < seq_distance(last, n) by {
            assert(before.contains(kept[i]));
            let k = choose|k: int| 0 <= k < before.len() && before[k] == kept[i];
            assert(span[k] == kept[i]);
        }
        if keep(last) {
            assert(span.filter(keep) =~= kept.push(last));
        } else {
            assert(span.filter(keep) =~= kept);
        }
    }
}

/// A reset leaves nothing but where to go on.
pub proof fn law_a_reset_leaves_nothing(m: JitterState, next: Option<u16>, s: u16)
    ensures
        m.reset_to(next).next == next,
        m.reset_to(next).highest is None,
        !m.reset_to(next).held.dom().contains(s),
        m.reset_to(next).max_lead == m.max_lead,
        m.reset_to(next).ready_count(0),
{
}

/// How many packets are ready is determined by the state.
pub proof fn law_ready_count_is_unique(m: JitterState, j: int, k: int)
    requires
        m.ready_count(j),
        m.ready_count(k),
    ensures
        j == k,
{
    if j < k {
        assert(m.ready(j));
    } else if k < j {
        assert(m.ready(k));
    }
}

/// After a release nothing is ready, and the stream goes on where it stopped:
/// the packet at place `i` afterwards is the one that was at place `k + i`.
pub proof fn law_releases_continue_the_stream(m: JitterState, k: int, i: int)
    requires
        m.wf(),
        m.ready_count(k),
        m.highest is Some,
    ensures
        m.advanced(k).ready_count(0),
        seq_plus(m.advanced(k).next->0, i) == seq_plus(m.next->0, k + i),
{
    let n = m.next->0;
    let after = m.advanced(k);
    if k > 0 {
        if k > m.lead() + 1 {
            assert(m.ready(m.lead() + 1));
            lemma_seq_steps(n, m.lead() + 1);
            assert(m.held.dom().contains(seq_plus(n, m.lead() + 1)));
        }
        lemma_seq_steps(n, k);
        assert(after.lead() == m.lead() - k);
        assert(seq_plus(after.next->0, 0) == seq_plus(n, k));
    }
}

/// A reset discards every held packet; once the packet that it names arrives,
/// that packet is at the front, alone, and ready.
pub proof fn law_reset_discards_and_rearms(m: JitterState, seq: u16, frame: Seq<u8>)
    requires
        m.wf(),
    ensures
        m.reset_to(Some(seq)).ready_count(0),
        m.reset_to(Some(seq)).inserted(seq, frame).ready(0),
        m.reset_to(Some(seq)).inserted(seq, frame).next == Some(seq),
        m.reset_to(Some(seq)).inserted(seq, frame).held == map![seq => frame],
{
    let after = m.reset_to(Some(seq)).inserted(seq, frame);
    assert(seq_plus(seq, 0) == seq);
    assert(after.held.dom().contains(seq));
}

} // verus!
