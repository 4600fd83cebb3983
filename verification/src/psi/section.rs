//! Sections in packets: how a section is cut into packets and put together
//! again.

use crate::bits::{join16, lemma_byte_fields};
use crate::packet::{
    counter_of, field_control, payload_start, pid_of, pkt_pid, unit_start, TS_PACKET_SIZE,
    TS_SYNC_BYTE,
};
use std::collections::HashMap;
use vstd::prelude::*;

verus! {

broadcast use vstd::std_specs::hash::group_hash_axioms;

/// A section and the packet identifier it is sent under.
pub struct Section {
    pub pid: u16,
    pub bytes: Vec<u8>,
}

/// The length of the whole section that starts with these three bytes.
pub open spec fn section_total(s: Seq<u8>) -> int {
    (s[1] as int % 16) * 256 + s[2] as int + 3
}

/// Whether a buffer holds a whole section.
pub open spec fn section_complete(s: Seq<u8>) -> bool {
    s.len() >= 3 && s.len() >= section_total(s)
}

/// Takes the section out of a buffer that holds a whole one.
pub open spec fn taken(s: Seq<u8>) -> (Seq<u8>, Option<Seq<u8>>) {
    if section_complete(s) {
        (Seq::empty(), Some(s.take(section_total(s))))
    } else {
        (s, None)
    }
}

/// Where the payload of a packet begins, unless it lies behind the end.
pub open spec fn payload_at(packet: Seq<u8>) -> Option<int> {
    match payload_start(packet) {
        Some(at) => if at <= packet.len() {
            Some(at)
        } else {
            None
        },
        None => None,
    }
}

/// What is pending, and the section that became whole, after a packet that
/// starts a payload unit at `at`: its first byte says how many bytes still
/// belong to the section before.
pub open spec fn after_unit_start(pending: Seq<u8>, packet: Seq<u8>, at: int) -> (
    Seq<u8>,
    Option<Seq<u8>>,
) {
    if at >= packet.len() || at + 1 + packet[at] > packet.len() {
        (Seq::empty(), None)
    } else {
        let end = at + 1 + packet[at] as int;
        let rest = pending + packet.subrange(at + 1, end);
        if pending.len() > 0 && packet[at] > 0 && section_complete(rest) {
            (Seq::empty(), taken(rest).1)
        } else if end >= packet.len() {
            (Seq::empty(), None)
        } else {
            taken(packet.skip(end))
        }
    }
}

/// What is pending, and the section that became whole, after a packet.
pub open spec fn reassembled(pid: int, pending: Seq<u8>, packet: Seq<u8>) -> (
    Seq<u8>,
    Option<Seq<u8>>,
) {
    if packet.len() < 188 || packet[0] != TS_SYNC_BYTE {
        (Seq::empty(), None)
    } else if pid_of(packet) != pid {
        (pending, None)
    } else {
        match payload_at(packet) {
            None => (pending, None),
            Some(at) => if unit_start(packet) {
                after_unit_start(pending, packet, at)
            } else if pending.len() == 0 || at >= packet.len() {
                (pending, None)
            } else {
                taken(pending + packet.skip(at))
            },
        }
    }
}

/// Puts the sections of one packet identifier together.
pub struct SectionReassembler {
    pid: u16,
    buffer: Vec<u8>,
    expected_len: Option<usize>,
}

impl View for SectionReassembler {
    type V = Seq<u8>;

    /// The bytes of the section that is not whole yet.
    closed spec fn view(&self) -> Seq<u8> {
        self.buffer@
    }
}

impl SectionReassembler {
    /// The packet identifier whose sections are put together.
    pub closed spec fn spec_pid(&self) -> u16 {
        self.pid
    }

    /// What is pending is not a whole section, and the length it needs is known
    /// as soon as its first three bytes are there.
    pub closed spec fn wf(&self) -> bool {
        &&& self.expected_len == if self.buffer@.len() >= 3 {
            Some(section_total(self.buffer@) as usize)
        } else {
            None
        }
        &&& !section_complete(self.buffer@)
    }

    pub fn new(pid: u16) -> (r: Self)
        ensures
            r.wf(),
            r.spec_pid() == pid,
            r@ == Seq::<u8>::empty(),
    {
        SectionReassembler { pid, buffer: Vec::with_capacity(1024), expected_len: None }
    }

    fn clear(&mut self)
        ensures
            final(self).wf(),
            final(self).pid == old(self).pid,
            final(self).buffer@ == Seq::<u8>::empty(),
    {
        self.buffer.clear();
        self.expected_len = None;
    }

    fn take_complete(&mut self) -> (r: Option<Vec<u8>>)
        requires
            old(self).expected_len matches Some(n) ==> old(self).buffer@.len() >= 3 && n
                == section_total(old(self).buffer@),
        ensures
            final(self).wf(),
            final(self).pid == old(self).pid,
            final(self).buffer@ == taken(old(self).buffer@).0,
            r is Some == taken(old(self).buffer@).1 is Some,
            r matches Some(s) ==> taken(old(self).buffer@).1 == Some(s@),
    {
        if self.expected_len.is_none() && self.buffer.len() >= 3 {
            proof {
                lemma_byte_fields();
            }
            let section_len: usize = join16(self.buffer[1] & 0x0F, self.buffer[2]) as usize;
            self.expected_len = Some(section_len + 3);
        }
        let expected_len: usize = match self.expected_len {
            Some(n) => n,
            None => return None,
        };
        if self.buffer.len() < expected_len {
            return None;
        }
        let section = vstd::slice::slice_to_vec(
            vstd::slice::slice_subrange(self.buffer.as_slice(), 0, expected_len),
        );
        self.clear();
        Some(section)
    }

    /// Takes in a packet and hands back the section that it completes.
    pub fn push(&mut self, packet: &[u8]) -> (r: Option<Vec<u8>>)
        requires
            old(self).wf(),
        ensures
            final(self).wf(),
            final(self).spec_pid() == old(self).spec_pid(),
            final(self)@ == reassembled(old(self).spec_pid() as int, old(self)@, packet@).0,
            r is Some == reassembled(old(self).spec_pid() as int, old(self)@, packet@).1 is Some,
            r matches Some(s) ==> reassembled(old(self).spec_pid() as int, old(self)@, packet@).1
                == Some(s@),
    {
        if packet.len() < TS_PACKET_SIZE || packet[0] != TS_SYNC_BYTE {
            self.clear();
            return None;
        }
        if pkt_pid(packet) != self.pid {
            return None;
        }
        proof {
            lemma_byte_fields();
        }
        let pusi = (packet[1] & 0x40) != 0;
        let mut offset: usize = match payload_offset(packet) {
            Some(at) => at,
            None => return None,
        };
        if pusi {
            if offset >= packet.len() {
                self.clear();
                return None;
            }
            let pointer: usize = packet[offset] as usize;
            offset = offset + 1;
            if pointer > packet.len() - offset {
                self.clear();
                return None;
            }
            let pointer_end: usize = offset + pointer;
            if self.buffer.len() > 0 && pointer > 0 {
                self.buffer.extend_from_slice(
                    vstd::slice::slice_subrange(packet, offset, pointer_end),
                );
                assert(self.buffer@ =~= old(self).buffer@ + packet@.subrange(
                    offset as int,
                    pointer_end as int,
                ));
                if let Some(section) = self.take_complete() {
                    self.clear();
                    return Some(section);
                }
            }
            self.clear();
            offset = pointer_end;
        } else if self.buffer.len() == 0 {
            return None;
        }
        if offset >= packet.len() {
            return None;
        }
        let ghost before = self.buffer@;
        self.buffer.extend_from_slice(vstd::slice::slice_subrange(packet, offset, packet.len()));
        assert(self.buffer@ =~= before + packet@.skip(offset as int));
        assert(pusi ==> self.buffer@ =~= packet@.skip(offset as int));
        self.take_complete()
    }
}

/// Where the payload of a packet begins, unless it lies behind the end.
fn payload_offset(packet: &[u8]) -> (r: Option<usize>)
    requires
        packet@.len() >= 188,
    ensures
        r is Some == payload_at(packet@) is Some,
        r matches Some(at) ==> payload_at(packet@) == Some(at as int),
{
    proof {
        lemma_byte_fields();
    }
    let control: u8 = (packet[3] >> 4u8) & 0x03;
    let offset: usize = match control {
        1 => 4,
        3 => packet[4] as usize + 5,
        _ => return None,
    };
    if offset > packet.len() {
        return None;
    }
    Some(offset)
}

/// The pending bytes of a packet identifier.
pub open spec fn pending_of(m: Map<u16, Seq<u8>>, pid: u16) -> Seq<u8> {
    if m.dom().contains(pid) {
        m[pid]
    } else {
        Seq::empty()
    }
}

/// What is pending for each packet identifier, and the section that became
/// whole, after a packet.
pub open spec fn map_reassembled(m: Map<u16, Seq<u8>>, packet: Seq<u8>) -> (
    Map<u16, Seq<u8>>,
    Option<Seq<u8>>,
) {
    if packet.len() < 188 || packet[0] != TS_SYNC_BYTE {
        (m, None)
    } else {
        let pid = pid_of(packet) as u16;
        let step = reassembled(pid as int, pending_of(m, pid), packet);
        (m.insert(pid, step.0), step.1)
    }
}

/// Puts the sections of every packet identifier together.
pub struct SectionReassemblerMap {
    per_pid: HashMap<u16, SectionReassembler>,
}

impl View for SectionReassemblerMap {
    type V = Map<u16, Seq<u8>>;

    /// What is pending for each packet identifier that was seen.
    closed spec fn view(&self) -> Map<u16, Seq<u8>> {
        self.per_pid@.map_values(|r: SectionReassembler| r@)
    }
}

impl SectionReassemblerMap {
    pub closed spec fn wf(&self) -> bool {
        forall|pid: u16| #[trigger]
            self.per_pid@.dom().contains(pid) ==> self.per_pid@[pid].wf()
                && self.per_pid@[pid].spec_pid() == pid
    }

    pub fn new() -> (r: Self)
        ensures
            r.wf(),
            r@ == Map::<u16, Seq<u8>>::empty(),
    {
        let r = SectionReassemblerMap { per_pid: HashMap::new() };
        assert(r@ =~= Map::<u16, Seq<u8>>::empty());
        r
    }

    /// Takes in a packet and hands back the section that it completes.
    pub fn push(&mut self, packet: &[u8]) -> (r: Option<Vec<u8>>)
        requires
            old(self).wf(),
        ensures
            final(self).wf(),
            final(self)@ == map_reassembled(old(self)@, packet@).0,
            r is Some == map_reassembled(old(self)@, packet@).1 is Some,
            r matches Some(s) ==> map_reassembled(old(self)@, packet@).1 == Some(s@),
    {
        if packet.len() < TS_PACKET_SIZE || packet[0] != TS_SYNC_BYTE {
            return None;
        }
        let pid = pkt_pid(packet);
        let mut reassembler = match self.per_pid.remove(&pid) {
            Some(r) => r,
            None => SectionReassembler::new(pid),
        };
        assert(reassembler@ == pending_of(old(self)@, pid));
        let section = reassembler.push(packet);
        self.per_pid.insert(pid, reassembler);
        assert(self@ =~= map_reassembled(old(self)@, packet@).0);
        section
    }
}

/// Where the part of a section that packet `k` carries begins. The first packet
/// has room for 183 bytes, each later one for 184.
pub open spec fn part_start(k: int) -> int {
    if k <= 0 {
        0
    } else {
        183 + 184 * (k - 1)
    }
}

/// The part of a section that packet `k` carries.
pub open spec fn part(section: Seq<u8>, k: int) -> Seq<u8> {
    section.subrange(
        part_start(k),
        if part_start(k + 1) < section.len() {
            part_start(k + 1)
        } else {
            section.len() as int
        },
    )
}

/// How many packets a section of this length needs.
pub open spec fn packet_count(len: int) -> int {
    1 + len / 184
}

/// The header of packet `k` of a section, with the pointer of the first one.
pub open spec fn part_header(pid: u16, cc: u8, k: int) -> Seq<u8> {
    let head = seq![
        TS_SYNC_BYTE,
        ((pid as int / 256) % 32 + if k == 0 {
            64int
        } else {
            0
        }) as u8,
        (pid as int % 256) as u8,
        (16 + (cc + k) % 16) as u8,
    ];
    if k == 0 {
        head.push(0)
    } else {
        head
    }
}

/// Packet `k` of a section: header, part and a filling of all ones.
pub open spec fn section_packet(section: Seq<u8>, pid: u16, cc: u8, k: int) -> Seq<u8> {
    let used = part_header(pid, cc, k) + part(section, k);
    used + Seq::new((188 - used.len()) as nat, |i: int| 0xFFu8)
}

/// The packets that carry a section.
pub open spec fn section_packets(section: Seq<u8>, pid: u16, cc: u8) -> Seq<Seq<u8>> {
    Seq::new(packet_count(section.len() as int) as nat, |k: int| section_packet(section, pid, cc, k))
}

/// The first packet of a section.
pub fn pack(section: &[u8], pid: u16, cc: u8) -> (r: [u8; TS_PACKET_SIZE])
    ensures
        r@ == section_packet(section@, pid, cc, 0),
{
    pack_part(section, pid, cc, 0, true)
}

/// Builds one packet from the part of the section that starts at `offset`.
fn pack_part(section: &[u8], pid: u16, cc: u8, offset: usize, first: bool) -> (r: [u8;
    TS_PACKET_SIZE])
    requires
        offset <= section@.len(),
        first ==> offset == 0,
    ensures
        forall|k: int, cc0: u8|
            #![trigger section_packet(section@, pid, cc0, k)]
            k >= 0 && first == (k == 0) && offset == part_start(k) && (cc0 + k) % 16 == cc as int
                % 16 ==> r@ == section_packet(section@, pid, cc0, k),
{
    let mut packet: [u8; TS_PACKET_SIZE] = [0xFF;TS_PACKET_SIZE];
    packet[0] = TS_SYNC_BYTE;
    packet[1] = ((pid / 256) % 32) as u8 + if first {
        0x40u8
    } else {
        0
    };
    packet[2] = (pid % 256) as u8;
    packet[3] = 0x10 + cc % 16;
    let mut payload: usize = 4;
    if first {
        packet[4] = 0x00;
        payload = 5;
    }
    let capacity: usize = TS_PACKET_SIZE - payload;
    let left: usize = section.len() - offset;
    let copy_len: usize = if capacity < left {
        capacity
    } else {
        left
    };
    let ghost head = packet@;
    assert(head[0] == TS_SYNC_BYTE);
    assert(head[1] == (pid / 256) % 32 + if first {
        64int
    } else {
        0
    });
    assert(head[2] == (pid % 256) as u8);
    assert(first ==> head[4] == 0);
    assert(head[3] == 16 + cc % 16);
    let mut i: usize = 0;
    while i < copy_len
        invariant
            i <= copy_len,
            copy_len <= capacity,
            capacity + payload == 188,
            offset + copy_len <= section@.len(),
            section@.len() == section.len(),
            packet@.len() == 188,
            head.len() == 188,
            forall|j: int| 0 <= j < payload ==> packet@[j] == head[j],
            forall|j: int| payload <= j < payload + i ==> packet@[j] == section@[offset + j - payload],
            forall|j: int| payload + i <= j < 188 ==> packet@[j] == 0xFF,
        decreases copy_len - i,
    {
        packet[payload + i] = section[offset + i];
        i = i + 1;
    }
    proof {
        assert forall|k: int, cc0: u8|
            #![trigger section_packet(section@, pid, cc0, k)]
            k >= 0 && first == (k == 0) && offset == part_start(k) && (cc0 + k) % 16 == cc as int
                % 16 implies packet@ == section_packet(section@, pid, cc0, k) by {
            let header = part_header(pid, cc0, k);
            assert(header.len() == payload);
            assert(part(section@, k).len() == copy_len);
            assert(packet@[0] == header[0]);
            assert(packet@[1] == header[1]);
            assert(packet@[2] == header[2]);
            assert(packet@[3] == header[3]);
            assert(k == 0 ==> packet@[4] == header[4]);
            assert(packet@ =~= section_packet(section@, pid, cc0, k));
        }
    }
    packet
}

/// Cuts a section into packets, numbered from `cc` on.
pub fn pack_multi(section: &[u8], pid: u16, cc: &mut u8) -> (r: Vec<[u8; TS_PACKET_SIZE]>)
    ensures
        r@.len() == packet_count(section@.len() as int),
        forall|k: int|
            0 <= k < r@.len() ==> #[trigger] r@[k]@ == section_packet(section@, pid, *old(cc), k),
        *final(cc) == (*old(cc) + packet_count(section@.len() as int)) % 16,
{
    let mut packets: Vec<[u8; TS_PACKET_SIZE]> = Vec::new();
    let mut offset: usize = 0;
    let mut first = true;
    while first || offset < section.len()
        invariant
            first == (packets@.len() == 0),
            offset <= section@.len(),
            offset == if part_start(packets@.len() as int) < section@.len() {
                part_start(packets@.len() as int)
            } else {
                section@.len() as int
            },
            packets@.len() > 0 ==> part_start(packets@.len() - 1) < section@.len() || packets@.len()
                == 1,
            forall|k: int|
                0 <= k < packets@.len() ==> #[trigger] packets@[k]@ == section_packet(
                    section@,
                    pid,
                    *old(cc),
                    k,
                ),
            *cc as int % 16 == (*old(cc) + packets@.len()) % 16,
            packets@.len() > 0 ==> *cc < 16,
        decreases section@.len() - offset + if first {
            1int
        } else {
            0
        },
    {
        let ghost k = packets@.len() as int;
        let packet = pack_part(section, pid, *cc, offset, first);
        assert(packet@ == section_packet(section@, pid, *old(cc), k));
        *cc = (*cc % 16 + 1) % 16;
        let capacity: usize = if first {
            183
        } else {
            184
        };
        first = false;
        offset = if capacity < section.len() - offset {
            offset + capacity
        } else {
            section.len()
        };
        packets.push(packet);
    }
    packets
}

/// Feeds packets one after the other; the result is that of the last one.
pub open spec fn fed(pid: int, pending: Seq<u8>, packets: Seq<Seq<u8>>) -> (
    Seq<u8>,
    Option<Seq<u8>>,
)
    decreases packets.len(),
{
    if packets.len() == 0 {
        (pending, None)
    } else {
        reassembled(pid, fed(pid, pending, packets.drop_last()).0, packets.last())
    }
}

/// What the packets of a section look like to the one who puts it together.
proof fn lemma_section_packet(section: Seq<u8>, pid: u16, cc: u8, k: int)
    requires
        pid < 0x2000,
        0 <= k < packet_count(section.len() as int),
    ensures
        ({
            let p = section_packet(section, pid, cc, k);
            let fill = Seq::new(
                (188 - part_header(pid, cc, k).len() - part(section, k).len()) as nat,
                |i: int| 0xFFu8,
            );
            &&& p.len() == 188
            &&& p[0] == TS_SYNC_BYTE
            &&& pid_of(p) == pid
            &&& field_control(p) == 1
            &&& unit_start(p) == (k == 0)
            &&& payload_at(p) == Some(4int)
            &&& k == 0 ==> p[4] == 0 && p.skip(5) == part(section, k) + fill
            &&& k > 0 ==> p.skip(4) == part(section, k) + fill
            &&& counter_of(p) == (cc + k) % 16
        }),
{
    let p = section_packet(section, pid, cc, k);
    let fill = Seq::new(
        (188 - part_header(pid, cc, k).len() - part(section, k).len()) as nat,
        |i: int| 0xFFu8,
    );
    assert(p[0] == part_header(pid, cc, k)[0]);
    assert(p[1] == part_header(pid, cc, k)[1]);
    assert(p[2] == part_header(pid, cc, k)[2]);
    assert(p[3] == part_header(pid, cc, k)[3]);
    if k == 0 {
        assert(p[4] == part_header(pid, cc, k)[4]);
        assert(p.skip(5) =~= part(section, k) + fill);
    } else {
        assert(p.skip(4) =~= part(section, k) + fill);
    }
}

/// A packet that starts a section with nothing before it replaces what was
/// pending.
proof fn lemma_reassembled_first(pid: u16, pending: Seq<u8>, p: Seq<u8>)
    requires
        p.len() == 188,
        p[0] == TS_SYNC_BYTE,
        pid_of(p) == pid,
        unit_start(p),
        payload_at(p) == Some(4int),
        p[4] == 0,
    ensures
        reassembled(pid as int, pending, p) == taken(p.skip(5)),
{
}

/// A packet that goes on with a section is added to what was pending.
proof fn lemma_reassembled_next(pid: u16, pending: Seq<u8>, p: Seq<u8>)
    requires
        p.len() == 188,
        p[0] == TS_SYNC_BYTE,
        pid_of(p) == pid,
        !unit_start(p),
        payload_at(p) == Some(4int),
        pending.len() > 0,
    ensures
        reassembled(pid as int, pending, p) == taken(pending + p.skip(4)),
{
}

proof fn lemma_fed_prefix(section: Seq<u8>, pid: u16, cc: u8, pending: Seq<u8>, n: int)
    requires
        pid < 0x2000,
        section.len() >= 3,
        section_total(section) == section.len(),
        0 < n < packet_count(section.len() as int),
    ensures
        fed(pid as int, pending, section_packets(section, pid, cc).take(n)) == (
            section.take(part_start(n)),
            None::<Seq<u8>>,
        ),
    decreases n,
{
    let all = section_packets(section, pid, cc);
    let ps = all.take(n);
    let p = section_packet(section, pid, cc, n - 1);
    assert(ps.drop_last() =~= all.take(n - 1));
    assert(ps.last() == p);
    lemma_section_packet(section, pid, cc, n - 1);
    let prefix = section.take(part_start(n));
    assert(part_start(n) <= section.len());
    assert(prefix[1] == section[1] && prefix[2] == section[2]);
    assert(part(section, n - 1) =~= section.subrange(part_start(n - 1), part_start(n)));
    assert(taken(prefix) == (prefix, None::<Seq<u8>>)) by {
        assert(part_start(n) < section.len());
    }
    if n == 1 {
        assert(p.skip(5) =~= prefix);
        assert(all.take(0) =~= Seq::<Seq<u8>>::empty());
        lemma_reassembled_first(pid, pending, p);
    } else {
        lemma_fed_prefix(section, pid, cc, pending, n - 1);
        assert(section.take(part_start(n - 1)) + p.skip(4) =~= prefix);
        lemma_reassembled_next(pid, section.take(part_start(n - 1)), p);
    }
}

/// A section that is cut into packets is put together again from them, at the
/// last packet and not before, whatever was pending.
pub proof fn law_pack_reassemble(section: Seq<u8>, pid: u16, cc: u8, pending: Seq<u8>)
    requires
        pid < 0x2000,
        section.len() >= 3,
        section_total(section) == section.len(),
    ensures
        fed(pid as int, pending, section_packets(section, pid, cc)) == (
            Seq::<u8>::empty(),
            Some(section),
        ),
        forall|n: int|
            0 < n < packet_count(section.len() as int) ==> (#[trigger] fed(
                pid as int,
                pending,
                section_packets(section, pid, cc).take(n),
            )).1 is None,
{
    let all = section_packets(section, pid, cc);
    let n = packet_count(section.len() as int);
    assert forall|m: int| 0 < m < n implies (#[trigger] fed(
        pid as int,
        pending,
        all.take(m),
    )).1 is None by {
        lemma_fed_prefix(section, pid, cc, pending, m);
    }
    assert(all.drop_last() =~= all.take(n - 1));
    lemma_section_packet(section, pid, cc, n - 1);
    let p = all.last();
    if n == 1 {
        assert(part(section, 0) =~= section);
        let b = p.skip(5);
        assert(b[1] == section[1] && b[2] == section[2]);
        assert(b.take(section.len() as int) =~= section);
        assert(all.take(0) =~= Seq::<Seq<u8>>::empty());
    } else {
        lemma_fed_prefix(section, pid, cc, pending, n - 1);
        let b = section.take(part_start(n - 1)) + p.skip(4);
        assert(b[1] == section[1] && b[2] == section[2]);
        assert(b.take(section.len() as int) =~= section);
    }
}

} // verus!
