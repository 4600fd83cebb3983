//! Packets that wait to be sent.

use crate::clock::{dts_forward_delta_ms, dts_forward_ms};
use crate::packet::{has_pcr, pcr_value, pkt_extract_pcr, TS_PACKET_SIZE};
use std::collections::VecDeque;
use vstd::prelude::*;

verus! {

/// A packet that waits, with the time stamps of the elementary stream packet
/// that it belongs to.
pub struct TsPacket {
    pub data: [u8; TS_PACKET_SIZE],
    pub pid: u16,
    pub pts: u64,
    pub dts: u64,
    pub pusi: bool,
    pub discontinuity: bool,
    pub pcr: Option<u64>,
}

/// What a waiting packet is.
#[verifier::ext_equal]
pub struct PacketModel {
    pub data: Seq<u8>,
    pub pid: u16,
    pub pts: u64,
    pub dts: u64,
    pub pusi: bool,
    pub discontinuity: bool,
    pub pcr: Option<u64>,
}

impl View for TsPacket {
    type V = PacketModel;

    open spec fn view(&self) -> PacketModel {
        PacketModel {
            data: self.data@,
            pid: self.pid,
            pts: self.pts,
            dts: self.dts,
            pusi: self.pusi,
            discontinuity: self.discontinuity,
            pcr: self.pcr,
        }
    }
}

/// The clock reference in a packet.
pub open spec fn pcr_in(data: Seq<u8>) -> Option<u64> {
    if has_pcr(data) {
        Some(pcr_value(data) as u64)
    } else {
        None
    }
}

impl TsPacket {
    pub fn new(
        data: [u8; TS_PACKET_SIZE],
        pid: u16,
        pts: u64,
        dts: u64,
        pusi: bool,
        discontinuity: bool,
    ) -> (r: Self)
        ensures
            r@ == (PacketModel { data: data@, pid, pts, dts, pusi, discontinuity, pcr: None }),
    {
        TsPacket { data, pid, pts, dts, pusi, discontinuity, pcr: None }
    }

    /// Notes the clock reference that the packet carries.
    pub fn extract_pcr(&mut self)
        ensures
            final(self)@ == (PacketModel { pcr: pcr_in(old(self)@.data), ..old(self)@ }),
    {
        self.pcr = pkt_extract_pcr(self.data.as_slice());
    }
}

/// How many of the packets start a payload unit.
pub open spec fn unit_count(s: Seq<PacketModel>) -> nat
    decreases s.len(),
{
    if s.len() == 0 {
        0
    } else {
        unit_count(s.drop_last()) + if s.last().pusi {
            1nat
        } else {
            0
        }
    }
}

/// How many of the packets carry a clock reference.
pub open spec fn pcr_count_of(s: Seq<PacketModel>) -> nat
    decreases s.len(),
{
    if s.len() == 0 {
        0
    } else {
        pcr_count_of(s.drop_last()) + if s.last().pcr is Some {
            1nat
        } else {
            0
        }
    }
}

/// The packets behind the first one hold the rest of the counts.
pub proof fn lemma_counts_drop_first(s: Seq<PacketModel>)
    requires
        s.len() > 0,
    ensures
        unit_count(s) == unit_count(s.drop_first()) + if s[0].pusi {
            1nat
        } else {
            0
        },
        pcr_count_of(s) == pcr_count_of(s.drop_first()) + if s[0].pcr is Some {
            1nat
        } else {
            0
        },
    decreases s.len(),
{
    if s.len() > 1 {
        lemma_counts_drop_first(s.drop_last());
        assert(s.drop_first().drop_last() =~= s.drop_last().drop_first());
        assert(s.drop_first().last() == s.last());
    } else {
        assert(s.drop_first() =~= Seq::<PacketModel>::empty());
        assert(s.drop_last() =~= Seq::<PacketModel>::empty());
    }
}

proof fn lemma_counts_bounded(s: Seq<PacketModel>)
    ensures
        unit_count(s) <= s.len(),
        pcr_count_of(s) <= s.len(),
    decreases s.len(),
{
    if s.len() > 0 {
        lemma_counts_bounded(s.drop_last());
    }
}

/// The bytes of a number of packets, as far as they can be counted.
pub open spec fn size_of_packets(n: int) -> int {
    if n * 188 <= usize::MAX {
        n * 188
    } else {
        usize::MAX as int
    }
}

/// The milliseconds from the first packet to the last, 0 where the last does
/// not follow the first.
pub open spec fn duration_of(s: Seq<PacketModel>) -> u64 {
    if s.len() == 0 {
        0
    } else {
        match dts_forward_ms(s.last().dts, s[0].dts) {
            Some(ms) => ms,
            None => 0,
        }
    }
}

/// Packets that wait to be sent, first come, first served.
pub struct OutBuffer {
    inner: VecDeque<TsPacket>,
    max_size: usize,
    unique_frames_count: usize,
    pcr_count: usize,
}

impl View for OutBuffer {
    type V = Seq<PacketModel>;

    /// The packets in their order.
    closed spec fn view(&self) -> Seq<PacketModel> {
        self.inner@.map_values(|p: TsPacket| p@)
    }
}

impl OutBuffer {
    /// The counters count what is there.
    pub closed spec fn wf(&self) -> bool {
        &&& self.unique_frames_count == unit_count(self@)
        &&& self.pcr_count == pcr_count_of(self@)
    }

    /// The number of packets that the buffer is meant for.
    pub closed spec fn spec_max_size(&self) -> usize {
        self.max_size
    }

    pub fn new(max_size: usize) -> (r: Self)
        ensures
            r.wf(),
            r@ == Seq::<PacketModel>::empty(),
            r.spec_max_size() == max_size,
    {
        let r = OutBuffer {
            inner: VecDeque::new(),
            max_size,
            unique_frames_count: 0,
            pcr_count: 0,
        };
        assert(r@ =~= Seq::<PacketModel>::empty());
        r
    }

    /// The number of packets that the buffer is meant for.
    pub fn max_size(&self) -> (r: usize)
        ensures
            r == self.spec_max_size(),
    {
        self.max_size
    }

    pub fn clear(&mut self)
        ensures
            final(self).wf(),
            final(self)@ == Seq::<PacketModel>::empty(),
            final(self).spec_max_size() == old(self).spec_max_size(),
    {
        self.inner = VecDeque::new();
        self.unique_frames_count = 0;
        self.pcr_count = 0;
        assert(self@ =~= Seq::<PacketModel>::empty());
    }

    pub fn push_back(&mut self, pkt: TsPacket)
        requires
            old(self).wf(),
        ensures
            final(self).wf(),
            final(self)@ == old(self)@.push(pkt@),
            final(self).spec_max_size() == old(self).spec_max_size(),
    {
        let ghost before = self@;
        let pusi = pkt.pusi;
        let has_clock = pkt.pcr.is_some();
        let room: usize = self.inner.len();
        self.inner.push_back(pkt);
        proof {
            assert(self@ =~= before.push(pkt@));
            assert(self@.drop_last() =~= before);
            lemma_counts_bounded(before);
        }
        // The queue grew by one, so its length before was below the limit.
        let grown: usize = self.inner.len();
        assert(grown == room + 1);
        if pusi {
            self.unique_frames_count = self.unique_frames_count + 1;
        }
        if has_clock {
            self.pcr_count = self.pcr_count + 1;
        }
    }

    pub fn pop_front(&mut self) -> (r: Option<TsPacket>)
        requires
            old(self).wf(),
        ensures
            final(self).wf(),
            final(self).spec_max_size() == old(self).spec_max_size(),
            old(self)@.len() == 0 ==> r is None && final(self)@ == old(self)@,
            old(self)@.len() > 0 ==> r is Some && r->0@ == old(self)@[0] && final(self)@
                == old(self)@.drop_first(),
    {
        let ghost before = self@;
        let current = match self.inner.pop_front() {
            Some(p) => p,
            None => return None,
        };
        proof {
            assert(self@ =~= before.drop_first());
            lemma_counts_drop_first(before);
        }
        if current.pusi {
            self.unique_frames_count = self.unique_frames_count - 1;
        }
        if current.pcr.is_some() {
            self.pcr_count = self.pcr_count - 1;
        }
        Some(current)
    }

    pub fn front(&self) -> (r: Option<&TsPacket>)
        ensures
            r is Some == (self@.len() > 0),
            r matches Some(p) ==> p@ == self@[0],
    {
        if self.inner.len() > 0 {
            Some(&self.inner[0])
        } else {
            None
        }
    }

    pub fn back(&self) -> (r: Option<&TsPacket>)
        ensures
            r is Some == (self@.len() > 0),
            r matches Some(p) ==> p@ == self@.last(),
    {
        if self.inner.len() > 0 {
            Some(&self.inner[self.inner.len() - 1])
        } else {
            None
        }
    }

    /// How many packets wait.
    pub fn len(&self) -> (r: usize)
        ensures
            r == self@.len(),
    {
        self.inner.len()
    }

    /// How many bytes wait.
    pub fn size(&self) -> (r: usize)
        ensures
            r == size_of_packets(self@.len() as int),
    {
        match self.inner.len().checked_mul(TS_PACKET_SIZE) {
            Some(n) => n,
            None => usize::MAX,
        }
    }

    /// How many milliseconds of the stream wait.
    pub fn duration(&self) -> (r: u64)
        ensures
            r == duration_of(self@),
    {
        match (self.front(), self.back()) {
            (Some(first), Some(last)) => match dts_forward_delta_ms(last.dts, first.dts) {
                Some(ms) => ms,
                None => 0,
            },
            _ => 0,
        }
    }

    /// How many payload units start in the packets that wait.
    pub fn frames(&self) -> (r: usize)
        requires
            self.wf(),
        ensures
            r == unit_count(self@),
    {
        self.unique_frames_count
    }

    /// How many of the packets that wait carry a clock reference.
    pub fn pcrs(&self) -> (r: usize)
        requires
            self.wf(),
        ensures
            r == pcr_count_of(self@),
    {
        self.pcr_count
    }

    /// The decoding times of the first and the last payload unit that starts
    /// here.
    pub fn unit_span(&self) -> (r: Option<(u64, u64)>)
        ensures
            r == unit_span_of(self@),
    {
        let n: usize = self.inner.len();
        let mut i: usize = 0;
        while i < n && !self.inner[i].pusi
            invariant
                i <= n,
                n == self.inner@.len(),
                first_unit(self@, i as int) == first_unit(self@, 0),
            decreases n - i,
        {
            assert(self@[i as int] == self.inner@[i as int]@);
            i = i + 1;
        }
        if i == n {
            return None;
        }
        assert(self@[i as int] == self.inner@[i as int]@);
        let mut j: usize = n - 1;
        while !self.inner[j].pusi
            invariant
                i <= j < n,
                n == self.inner@.len(),
                self.inner@[i as int].pusi,
                last_unit(self@, j as int) == last_unit(self@, n - 1),
            decreases j,
        {
            assert(self@[j as int] == self.inner@[j as int]@);
            j = j - 1;
        }
        assert(self@[j as int] == self.inner@[j as int]@);
        Some((self.inner[i].dts, self.inner[j].dts))
    }
}

/// Every packet that waits is a whole packet.
pub proof fn lemma_buffer_whole(b: &OutBuffer)
    ensures
        forall|i: int| 0 <= i < b@.len() ==> (#[trigger] b@[i]).data.len() == 188,
{
    assert forall|i: int| 0 <= i < b@.len() implies (#[trigger] b@[i]).data.len() == 188 by {
        assert(b@[i] == b.inner@[i]@);
    }
}

/// The first packet from `i` on that starts a payload unit.
pub open spec fn first_unit(s: Seq<PacketModel>, i: int) -> Option<int>
    decreases s.len() - i,
{
    if i >= s.len() {
        None
    } else if s[i].pusi {
        Some(i)
    } else {
        first_unit(s, i + 1)
    }
}

/// The last packet up to `i` that starts a payload unit.
pub open spec fn last_unit(s: Seq<PacketModel>, i: int) -> Option<int>
    decreases i + 1,
{
    if i < 0 {
        None
    } else if s[i].pusi {
        Some(i)
    } else {
        last_unit(s, i - 1)
    }
}

/// The decoding times of the first and the last payload unit that starts in
/// these packets.
pub open spec fn unit_span_of(s: Seq<PacketModel>) -> Option<(u64, u64)> {
    match (first_unit(s, 0), last_unit(s, s.len() - 1)) {
        (Some(i), Some(j)) => Some((s[i].dts, s[j].dts)),
        _ => None,
    }
}

} // verus!
