//! What holds of the tables as they are read: what each byte of them says, and when a table
//! counts as changed.

use crate::bits::be16;
use crate::mux::table_laws::carries;
use crate::psi::header::{cached_header_of, header_of, section_changed};
use crate::psi::pairs::{occurrences, same_pairs};
use crate::psi::pat::{
    pat_entry, pat_programs, pat_programs_of, pids_of_program, same_programs, PatInfo,
};
use crate::psi::pmt::{
    lang_from, lang_of, pmt_changed, pmt_of, stream_pairs, streams_of, PmtModel, StreamModel,
};
use crate::psi::sdt::{dvb_string_of, sdt_services, services_from, SdtModel};
use crate::psi::section::{map_reassembled, reassembled, section_total};
use crate::text::lossy_text;
use vstd::prelude::*;

verus! {

// ---- Sections ----

/// Whether a packet of a stream ends one section, by its first bytes, and may start another
/// behind it.
pub open spec fn ends_section(pkt: Seq<u8>, pid: int, tail: Seq<u8>) -> bool {
    &&& pkt.len() == 188
    &&& pkt[0] == 0x47
    &&& (pkt[1] as int % 32) * 256 + pkt[2] == pid
    &&& (pkt[1] / 64) % 2 == 1
    &&& (pkt[3] / 16) % 4 == 1
    &&& 0 < tail.len() <= 183
    &&& pkt[4] == tail.len()
    &&& pkt.subrange(5, 5 + tail.len() as int) == tail
}

/// A section whose last bytes stand in the packet in which the next one starts is whole
/// with that packet.
pub proof fn law_section_ends_before_next(
    pid: int,
    pending: Seq<u8>,
    tail: Seq<u8>,
    pkt: Seq<u8>,
)
    requires
        pending.len() > 0,
        (pending + tail).len() >= 3,
        section_total(pending + tail) == (pending + tail).len(),
        ends_section(pkt, pid, tail),
    ensures
        reassembled(pid, pending, pkt).1 == Some(pending + tail),
{
    let section = pending + tail;
    assert(section.take(section.len() as int) =~= section);
}

/// Sections of one stream are put together from packets of that stream alone: a packet
/// leaves what is pending for every other stream as it is.
pub proof fn law_streams_are_apart(m: Map<u16, Seq<u8>>, pkt: Seq<u8>, other: u16)
    requires
        pkt.len() == 188,
        (pkt[1] as int % 32) * 256 + pkt[2] != other,
    ensures
        map_reassembled(m, pkt).0.contains_key(other) == m.contains_key(other),
        m.contains_key(other) ==> map_reassembled(m, pkt).0[other] == m[other],
{
}

// ---- The association table ----

/// Of a table that lists programs only, the programs are read in their order: each has four
/// bytes, a number and the identifier of its map. The last four bytes are its checksum.
pub proof fn law_programs_are_read(section: Seq<u8>)
    requires
        section.len() >= 12,
        section.len() % 4 == 0,
        forall|k: int|
            #![trigger section[8 + 4 * k]]
            0 <= k < (section.len() - 12) / 4 ==> section[8 + 4 * k] * 256 + section[9 + 4 * k]
                != 0,
    ensures
        ({
            let p = pat_programs(section);
            &&& p.len() == (section.len() - 12) / 4
            &&& forall|k: int|
                0 <= k < p.len() ==> (#[trigger] p[k]).prog_num == section[8 + 4 * k] * 256
                    + section[9 + 4 * k] && p[k].pmt_pid == (section[10 + 4 * k] as int % 32) * 256
                    + section[11 + 4 * k]
        }),
{
    let rest = section.skip(8);
    assert forall|k: int|
        #![trigger rest[4 * k]]
        0 <= k < (rest.len() - 4) / 4 implies rest[4 * k] * 256 + rest[4 * k + 1] != 0 by {
        assert(rest[4 * k] == section[8 + 4 * k]);
        assert(rest[4 * k + 1] == section[9 + 4 * k]);
    }
    lemma_programs_of(rest);
    let p = pat_programs(section);
    assert forall|k: int| 0 <= k < p.len() implies (#[trigger] p[k]).prog_num == section[8 + 4 * k]
        * 256 + section[9 + 4 * k] && p[k].pmt_pid == (section[10 + 4 * k] as int % 32) * 256
        + section[11 + 4 * k] by {
        assert(rest[4 * k] == section[8 + 4 * k]);
        assert(rest[4 * k + 1] == section[9 + 4 * k]);
        assert(rest[4 * k + 2] == section[10 + 4 * k]);
        assert(rest[4 * k + 3] == section[11 + 4 * k]);
    }
}

proof fn lemma_programs_of(rest: Seq<u8>)
    requires
        rest.len() >= 4,
        rest.len() % 4 == 0,
        forall|k: int|
            #![trigger rest[4 * k]]
            0 <= k < (rest.len() - 4) / 4 ==> rest[4 * k] * 256 + rest[4 * k + 1] != 0,
    ensures
        ({
            let p = pat_programs_of(rest);
            &&& p.len() == (rest.len() - 4) / 4
            &&& forall|k: int|
                0 <= k < p.len() ==> (#[trigger] p[k]).prog_num == rest[4 * k] * 256 + rest[4 * k
                    + 1] && p[k].pmt_pid == (rest[4 * k + 2] as int % 32) * 256 + rest[4 * k + 3]
        }),
    decreases rest.len(),
{
    if rest.len() >= 8 {
        let more = rest.skip(4);
        assert forall|k: int|
            #![trigger more[4 * k]]
            0 <= k < (more.len() - 4) / 4 implies more[4 * k] * 256 + more[4 * k + 1] != 0 by {
            assert(more[4 * k] == rest[4 * (k + 1)]);
            assert(more[4 * k + 1] == rest[4 * (k + 1) + 1]);
        }
        lemma_programs_of(more);
        let p = pat_programs_of(rest);
        let q = pat_programs_of(more);
        assert(rest[4 * 0int] * 256 + rest[4 * 0int + 1] != 0);
        assert(p == seq![pat_entry(rest)] + q);
        assert forall|k: int| 0 <= k < p.len() implies (#[trigger] p[k]).prog_num == rest[4 * k]
            * 256 + rest[4 * k + 1] && p[k].pmt_pid == (rest[4 * k + 2] as int % 32) * 256 + rest[4
            * k + 3] by {
            if k > 0 {
                assert(p[k] == q[k - 1]);
                assert(more[4 * (k - 1)] == rest[4 * k]);
                assert(more[4 * (k - 1) + 1] == rest[4 * k + 1]);
                assert(more[4 * (k - 1) + 2] == rest[4 * k + 2]);
                assert(more[4 * (k - 1) + 3] == rest[4 * k + 3]);
            }
        }
    }
}

/// The entry with number 0, that of the network, is no program.
pub proof fn law_network_is_no_program(section: Seq<u8>)
    ensures
        forall|k: int|
            0 <= k < pat_programs(section).len() ==> (#[trigger] pat_programs(section)[k]).prog_num
                != 0,
{
    if section.len() >= 8 {
        lemma_no_network(section.skip(8));
    }
}

proof fn lemma_no_network(rest: Seq<u8>)
    ensures
        forall|k: int|
            0 <= k < pat_programs_of(rest).len() ==> (#[trigger] pat_programs_of(rest)[k]).prog_num
                != 0,
    decreases rest.len(),
{
    if rest.len() >= 8 {
        lemma_no_network(rest.skip(4));
        let more = pat_programs_of(rest.skip(4));
        assert forall|k: int| 0 <= k < pat_programs_of(rest).len() implies (
        #[trigger] pat_programs_of(rest)[k]).prog_num != 0 by {
            if pat_entry(rest).prog_num != 0 && k > 0 {
                assert(pat_programs_of(rest)[k] == more[k - 1]);
            }
        }
    }
}

/// Where no number occurs twice, two lists of programs are the same just where each holds
/// the programs of the other, in whatever order.
pub proof fn law_same_programs(a: Seq<PatInfo>, b: Seq<PatInfo>)
    requires
        forall|i: int, j: int|
            0 <= i < j < a.len() ==> (#[trigger] a[i]).prog_num != (#[trigger] a[j]).prog_num,
        forall|i: int, j: int|
            0 <= i < j < b.len() ==> (#[trigger] b[i]).prog_num != (#[trigger] b[j]).prog_num,
    ensures
        same_programs(a, b) <==> (forall|p: PatInfo| #[trigger] a.contains(p) == b.contains(p)),
{
    lemma_pids_apart(a);
    lemma_pids_apart(b);
    if same_programs(a, b) {
        assert forall|p: PatInfo| #[trigger] a.contains(p) == b.contains(p) by {
            assert(pids_of_program(a, p.prog_num) == pids_of_program(b, p.prog_num));
            assert(a.contains(p) == (pids_of_program(a, p.prog_num) == seq![p.pmt_pid]));
            assert(b.contains(p) == (pids_of_program(b, p.prog_num) == seq![p.pmt_pid]));
        }
    }
    if forall|p: PatInfo| #[trigger] a.contains(p) == b.contains(p) {
        assert forall|n: u16| #[trigger] pids_of_program(a, n) == pids_of_program(b, n) by {
            if pids_of_program(a, n).len() > 0 {
                let p = PatInfo { prog_num: n, pmt_pid: pids_of_program(a, n)[0] };
                assert(pids_of_program(a, n) =~= seq![p.pmt_pid]);
                assert(a.contains(p));
                assert(b.contains(p));
            } else if pids_of_program(b, n).len() > 0 {
                let p = PatInfo { prog_num: n, pmt_pid: pids_of_program(b, n)[0] };
                assert(pids_of_program(b, n) =~= seq![p.pmt_pid]);
                assert(b.contains(p));
                assert(a.contains(p));
            } else {
                assert(pids_of_program(a, n) =~= pids_of_program(b, n));
            }
        }
    }
}

proof fn lemma_pids_apart(s: Seq<PatInfo>)
    requires
        forall|i: int, j: int|
            0 <= i < j < s.len() ==> (#[trigger] s[i]).prog_num != (#[trigger] s[j]).prog_num,
    ensures
        forall|n: u16| (#[trigger] pids_of_program(s, n)).len() <= 1,
        forall|p: PatInfo| #[trigger]
            s.contains(p) == (pids_of_program(s, p.prog_num) == seq![p.pmt_pid]),
    decreases s.len(),
{
    if s.len() == 0 {
        assert forall|p: PatInfo| #[trigger] s.contains(p) == (pids_of_program(s, p.prog_num)
            == seq![p.pmt_pid]) by {
            assert(pids_of_program(s, p.prog_num).len() == 0);
        }
    } else {
        let t = s.drop_last();
        let last = s.last();
        assert forall|i: int, j: int| 0 <= i < j < t.len() implies (#[trigger] t[i]).prog_num != (
        #[trigger] t[j]).prog_num by {
            assert(s[i].prog_num != s[j].prog_num);
        }
        lemma_pids_apart(t);
        assert(pids_of_program(t, last.prog_num).len() == 0) by {
            if pids_of_program(t, last.prog_num).len() > 0 {
                let p = PatInfo {
                    prog_num: last.prog_num,
                    pmt_pid: pids_of_program(t, last.prog_num)[0],
                };
                assert(pids_of_program(t, p.prog_num) =~= seq![p.pmt_pid]);
                assert(t.contains(p));
                let i = choose|i: int| 0 <= i < t.len() && t[i] == p;
                assert(s[i].prog_num != s[s.len() - 1].prog_num);
            }
        }
        assert forall|n: u16| (#[trigger] pids_of_program(s, n)).len() <= 1 by {
            assert(pids_of_program(t, n).len() <= 1);
        }
        assert forall|p: PatInfo| #[trigger] s.contains(p) == (pids_of_program(s, p.prog_num)
            == seq![p.pmt_pid]) by {
            assert(s.contains(p) == (t.contains(p) || p == last)) by {
                if s.contains(p) {
                    let i = choose|i: int| 0 <= i < s.len() && s[i] == p;
                    if i < s.len() - 1 {
                        assert(t[i] == p);
                    }
                }
                if t.contains(p) {
                    let i = choose|i: int| 0 <= i < t.len() && t[i] == p;
                    assert(s[i] == p);
                }
                assert(s[s.len() - 1] == last);
            }
            if p.prog_num == last.prog_num {
                let before = pids_of_program(t, last.prog_num);
                assert(before =~= Seq::<u16>::empty());
                assert(pids_of_program(s, p.prog_num) == before.push(last.pmt_pid));
                assert(before.push(last.pmt_pid)[0] == last.pmt_pid);
                assert(before.push(last.pmt_pid) =~= seq![last.pmt_pid]);
                assert(seq![p.pmt_pid][0] == p.pmt_pid);
                assert(t.contains(p) == (pids_of_program(t, p.prog_num) == seq![p.pmt_pid]));
            }
        }
    }
}

// ---- The map ----

/// Two lists of pairs are the same just where they hold the same pairs, each as often, in
/// whatever order.
pub proof fn law_same_pairs(a: Seq<(u16, u16)>, b: Seq<(u16, u16)>)
    ensures
        same_pairs(a, b) <==> a.to_multiset() == b.to_multiset(),
{
    assert forall|x: (u16, u16)| #[trigger] occurrences(a, x) == a.to_multiset().count(x) by {
        lemma_occurrences(a, x);
    }
    assert forall|x: (u16, u16)| #[trigger] occurrences(b, x) == b.to_multiset().count(x) by {
        lemma_occurrences(b, x);
    }
    if same_pairs(a, b) {
        assert forall|x: (u16, u16)| a.to_multiset().count(x) == b.to_multiset().count(x) by {
            assert(occurrences(a, x) == occurrences(b, x));
        }
        assert(a.to_multiset() =~= b.to_multiset());
    }
}

proof fn lemma_occurrences(s: Seq<(u16, u16)>, x: (u16, u16))
    ensures
        occurrences(s, x) == s.to_multiset().count(x),
    decreases s.len(),
{
    broadcast use vstd::seq_lib::group_to_multiset_ensures;

    if s.len() > 0 {
        lemma_occurrences(s.drop_last(), x);
        assert(s =~= s.drop_last().push(s.last()));
    }
}

/// A map counts as changed just where the stream that bears the clock is another one, or
/// where the streams, by type and identifier, are not the same ones. Languages and the
/// order do not count.
pub proof fn law_map_change(a: PmtModel, b: PmtModel)
    ensures
        pmt_changed(a, b) <==> (a.pcr_pid != b.pcr_pid || stream_pairs(a.streams).to_multiset()
            != stream_pairs(b.streams).to_multiset()),
        stream_pairs(a.streams).len() == a.streams.len(),
        forall|i: int|
            0 <= i < a.streams.len() ==> #[trigger] stream_pairs(a.streams)[i] == (
                a.streams[i].stream_type as u16,
                a.streams[i].pid,
            ),
{
    law_same_pairs(stream_pairs(a.streams), stream_pairs(b.streams));
}

/// Whether bytes are the entry of an elementary stream in a map.
pub open spec fn is_entry(e: Seq<u8>, stream_type: u8, pid: int, d: Seq<u8>) -> bool {
    &&& e.len() == 5 + d.len()
    &&& e[0] == stream_type
    &&& (e[1] as int % 32) * 256 + e[2] == pid
    &&& (e[3] as int % 16) * 256 + e[4] == d.len()
    &&& e.skip(5) == d
}

/// The streams of a map are read one after the other: behind the entry of one come those
/// of the others, down to the four bytes of the checksum.
pub proof fn law_streams_are_read(
    e: Seq<u8>,
    stream_type: u8,
    pid: u16,
    d: Seq<u8>,
    rest: Seq<u8>,
)
    requires
        is_entry(e, stream_type, pid as int, d),
        rest.len() >= 4,
        streams_of(rest) is Some,
    ensures
        streams_of(e + rest) == Some(
            seq![
                StreamModel {
                    stream_type,
                    pid,
                    lang: lang_of(d),
                    description: Seq::empty(),
                },
            ] + streams_of(rest)->0,
        ),
        rest.len() == 4 ==> streams_of(rest) == Some(Seq::<StreamModel>::empty()),
{
    let all = e + rest;
    let end = 5 + d.len() as int;
    assert(all.skip(end) =~= rest);
    assert(all.subrange(5, end) =~= d);
}

/// Of a map, the stream that bears the clock and the streams behind the descriptors of the
/// program are read.
pub proof fn law_map_is_read(section: Seq<u8>, at: int)
    requires
        section.len() >= 12,
        at == 12 + (section[10] as int % 16) * 256 + section[11],
        at <= section.len(),
        streams_of(section.skip(at)) is Some,
    ensures
        pmt_of(section) == Some(
            PmtModel {
                pcr_pid: ((section[8] as int % 32) * 256 + section[9]) as u16,
                streams: streams_of(section.skip(at))->0,
            },
        ),
{
}

/// The language of a stream is that of its last language descriptor, where it holds three
/// letters; other descriptors do not tell it.
pub proof fn law_language_is_read(before: Seq<u8>, d: Seq<u8>)
    requires
        before.len() >= 2,
        before.len() == 2 + before[1],
    ensures
        before[0] != 0x0A || before[1] < 3 ==> lang_of(before + d) == lang_of(d),
        before[0] == 0x0A && before[1] >= 3 ==> lang_of(before + d) == match lang_of(d) {
            Some(l) => Some(l),
            None => Some(lossy_text(before.subrange(2, 5))),
        },
        lang_of(Seq::empty()) is None,
{
    let all = before + d;
    assert(all.skip(before.len() as int) =~= d);
    if before[0] == 0x0A && before[1] >= 3 {
        assert(all.subrange(2, 5) =~= before.subrange(2, 5));
        lemma_language(d, Some(lossy_text(before.subrange(2, 5))));
    }
}

proof fn lemma_language(d: Seq<u8>, found: Option<Seq<char>>)
    ensures
        lang_from(d, found) == match lang_from(d, None) {
            Some(l) => Some(l),
            None => found,
        },
    decreases d.len(),
{
    if !(d.len() < 2 || 2 + d[1] > d.len()) {
        let rest = d.skip(2 + d[1] as int);
        if d[0] == 0x0A && d[1] >= 3 {
            lemma_language(rest, Some(lossy_text(d.subrange(2, 5))));
        } else {
            lemma_language(rest, found);
        }
    }
}

// ---- The description ----

/// Whether bytes are a descriptor of a service with two texts.
pub open spec fn is_service(
    d: Seq<u8>,
    service_type: u8,
    provider: Seq<u8>,
    name: Seq<u8>,
) -> bool {
    &&& d.len() == 5 + provider.len() + name.len()
    &&& d[0] == 0x48
    &&& d[1] == d.len() - 2
    &&& d[2] == service_type
    &&& d[3] == provider.len()
    &&& d.subrange(4, 4 + provider.len() as int) == provider
    &&& d[4 + provider.len() as int] == name.len()
    &&& d.skip(5 + provider.len() as int) == name
}

/// A service is read from its descriptor: its type, the text of its provider and its own.
/// Its number and whether it runs stand before the descriptors.
pub proof fn law_service_is_read(
    d: Seq<u8>,
    service_type: u8,
    provider: Seq<u8>,
    name: Seq<u8>,
    rest: Seq<u8>,
    service_id: u16,
    running_status: u8,
    left: int,
)
    requires
        is_service(d, service_type, provider, name),
        left >= d.len(),
        services_from(rest, left - d.len(), service_id, running_status) is Some,
    ensures
        services_from(d + rest, left, service_id, running_status) == Some(
            seq![
                SdtModel {
                    service_id,
                    service_type,
                    provider_name: dvb_string_of(provider),
                    service_name: dvb_string_of(name),
                    running_status,
                },
            ] + services_from(rest, left - d.len(), service_id, running_status)->0,
        ),
{
    let all = d + rest;
    let body = all.skip(2);
    let n = provider.len() as int;
    assert(all.skip(d.len() as int) =~= rest);
    assert(body[0] == d[2] && body[1] == d[3]);
    assert(body.subrange(2, 2 + n) =~= provider) by {
        assert(body.subrange(2, 2 + n) =~= d.subrange(4, 4 + n));
    }
    assert(body[2 + n] == d[4 + n]);
    assert(body.subrange(3 + n, 3 + n + name.len()) =~= name) by {
        assert(body.subrange(3 + n, 3 + n + name.len()) =~= d.skip(5 + n));
    }
}

/// The services of the table of this stream are read behind its eleven bytes of header:
/// number, state and descriptors of each. Another table describes none.
pub proof fn law_services_are_read(section: Seq<u8>)
    ensures
        section.len() > 0 && section[0] != 0x42 ==> sdt_services(section) == Some(
            Seq::<SdtModel>::empty(),
        ),
        section.len() >= 20 && section[0] == 0x42 ==> sdt_services(section) == services_from(
            section.skip(16),
            (section[14] as int % 16) * 256 + section[15],
            (section[11] * 256 + section[12]) as u16,
            section[13] / 32,
        ),
{
    if section.len() >= 20 && section[0] == 0x42 {
        let rest = section.skip(11);
        assert(rest.skip(5) =~= section.skip(16));
    }
}

// ---- Changes ----

/// A section counts as changed against the one that a packet carries just where it is
/// current and table, extension or version differ or the other one was not current.
pub proof fn law_section_change(cached: Seq<u8>, pid: int, old_section: Seq<u8>, section: Seq<u8>)
    requires
        carries(cached, pid, old_section),
        old_section.len() >= 8,
        section.len() >= 8,
    ensures
        section_changed(cached, section) <==> section[5] % 2 == 1 && (section[0] != old_section[0]
            || section[3] != old_section[3] || section[4] != old_section[4] || (section[5] / 2) % 32
            != (old_section[5] / 2) % 32 || old_section[5] % 2 == 0),
{
    let head = cached.subrange(5, 13);
    let whole = cached.subrange(5, 5 + old_section.len() as int);
    assert forall|i: int| 0 <= i < 8 implies #[trigger] head[i] == old_section[i] by {
        assert(head[i] == whole[i]);
    }
    assert(cached_header_of(cached) == header_of(head));
    assert(head[0] == old_section[0] && head[3] == old_section[3] && head[4] == old_section[4]
        && head[5] == old_section[5]);
    assert((be16(section[3], section[4]) == be16(old_section[3], old_section[4])) == (section[3]
        == old_section[3] && section[4] == old_section[4]));
}

} // verus!
