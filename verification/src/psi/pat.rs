//! The program association table: which programs there are, and where their
//! maps are found.

use crate::bits::{be16, join16};
use crate::psi::crc::{push_crc, with_crc};
use crate::psi::header::{lemma_finished_tail, set_section_length12, with_length12};
use crate::psi::time::{high, low};
use vstd::prelude::*;

verus! {

/// A program and the packet identifier of its map.
#[derive(Debug, Clone, Copy, PartialEq, Eq, PartialOrd, Ord, Structural)]
pub struct PatInfo {
    pub prog_num: u16,
    pub pmt_pid: u16,
}

/// The entry with which the rest of a table begins.
pub open spec fn pat_entry(rest: Seq<u8>) -> PatInfo {
    PatInfo {
        prog_num: be16(rest[0], rest[1]) as u16,
        pmt_pid: ((rest[2] as int % 32) * 256 + rest[3]) as u16,
    }
}

/// The programs that the rest of a table lists, the checksum at its end left
/// aside; number 0 is no program.
pub open spec fn pat_programs_of(rest: Seq<u8>) -> Seq<PatInfo>
    decreases rest.len(),
{
    if rest.len() < 8 {
        Seq::empty()
    } else if pat_entry(rest).prog_num != 0 {
        seq![pat_entry(rest)] + pat_programs_of(rest.skip(4))
    } else {
        pat_programs_of(rest.skip(4))
    }
}

/// The programs of the table.
pub open spec fn pat_programs(section: Seq<u8>) -> Seq<PatInfo> {
    if section.len() < 8 {
        Seq::empty()
    } else {
        pat_programs_of(section.skip(8))
    }
}

/// The programs of the table.
pub fn analyze_pat(section: &[u8]) -> (r: Vec<PatInfo>)
    requires
        section@.len() >= 4,
    ensures
        r@ == pat_programs(section@),
{
    let mut programs: Vec<PatInfo> = Vec::new();
    if section.len() < 8 {
        return programs;
    }
    let mut pos: usize = 8;
    assert(programs@ + pat_programs(section@) =~= pat_programs(section@));
    while section.len() - pos >= 8
        invariant
            section@.len() == section.len(),
            8 <= pos <= section@.len(),
            programs@ + pat_programs_of(section@.skip(pos as int)) == pat_programs(section@),
        decreases section@.len() - pos,
    {
        let ghost rest = section@.skip(pos as int);
        let ghost before = programs@;
        let prog_num = join16(section[pos], section[pos + 1]);
        let pmt_pid = join16(section[pos + 2] % 32, section[pos + 3]);
        if prog_num != 0 {
            programs.push(PatInfo { prog_num, pmt_pid });
        }
        proof {
            assert(rest.skip(4) =~= section@.skip(pos + 4));
            let more = pat_programs_of(rest.skip(4));
            if prog_num != 0 {
                assert(before + (seq![pat_entry(rest)] + more) =~= programs@ + more);
            }
        }
        pos = pos + 4;
    }
    assert(programs@ + Seq::<PatInfo>::empty() =~= programs@);
    programs
}

/// The entry that maps a program.
pub open spec fn pat_entry_bytes(m: (u16, u16)) -> Seq<u8> {
    seq![
        (m.0 / 256) as u8,
        (m.0 % 256) as u8,
        ((m.1 / 256) % 32 + 0xE0) as u8,
        (m.1 % 256) as u8,
    ]
}

/// The entries of a list of programs.
pub open spec fn pat_entries(mappings: Seq<(u16, u16)>) -> Seq<u8>
    decreases mappings.len(),
{
    if mappings.len() == 0 {
        Seq::empty()
    } else {
        pat_entry_bytes(mappings[0]) + pat_entries(mappings.drop_first())
    }
}

/// A table with the header of another and a list of its own.
pub open spec fn patched_pat(original: Seq<u8>, mappings: Seq<(u16, u16)>) -> Seq<u8> {
    with_crc(with_length12(original.take(8) + pat_entries(mappings)))
}

/// Writes a table with the header of `original` that lists the programs of
/// `mappings`: number and packet identifier of the map.
pub fn patch_pat_section(original_section: &[u8], mappings: &[(u16, u16)]) -> (r: Vec<u8>)
    requires
        original_section@.len() >= 8,
    ensures
        r@ == patched_pat(original_section@, mappings@),
{
    let mut out: Vec<u8> = Vec::new();
    out.extend_from_slice(vstd::slice::slice_subrange(original_section, 0, 8));
    let mut i: usize = 0;
    let ghost whole = original_section@.take(8) + pat_entries(mappings@);
    assert(mappings@.skip(0) =~= mappings@);
    assert(out@ + pat_entries(mappings@) =~= whole);
    while i < mappings.len()
        invariant
            i <= mappings@.len(),
            out@ + pat_entries(mappings@.skip(i as int)) == whole,
            out@.len() >= 8,
        decreases mappings@.len() - i,
    {
        let (prog_num, pmt_pid) = mappings[i];
        let ghost before = out@;
        out.push(high(prog_num));
        out.push(low(prog_num));
        out.push(high(pmt_pid) % 32 + 0xE0);
        out.push(low(pmt_pid));
        proof {
            let more = pat_entries(mappings@.skip(i + 1));
            assert(mappings@.skip(i as int).drop_first() =~= mappings@.skip(i + 1));
            assert(out@ =~= before + pat_entry_bytes(mappings@[i as int]));
            assert(before + (pat_entry_bytes(mappings@[i as int]) + more) =~= out@ + more);
        }
        i = i + 1;
    }
    assert(out@ + Seq::<u8>::empty() =~= out@);
    set_section_length12(&mut out);
    push_crc(&mut out);
    out
}

/// The packet identifiers that are listed for a program number, in their order.
pub open spec fn pids_of_program(s: Seq<PatInfo>, n: u16) -> Seq<u16>
    decreases s.len(),
{
    if s.len() == 0 {
        Seq::empty()
    } else if s.last().prog_num == n {
        pids_of_program(s.drop_last(), n).push(s.last().pmt_pid)
    } else {
        pids_of_program(s.drop_last(), n)
    }
}

/// Whether two tables list the same programs. The order of the numbers does not
/// count; entries of one number are compared in their order.
pub open spec fn same_programs(a: Seq<PatInfo>, b: Seq<PatInfo>) -> bool {
    forall|n: u16| #[trigger] pids_of_program(a, n) == pids_of_program(b, n)
}

proof fn lemma_number_absent(s: Seq<PatInfo>, n: u16)
    requires
        forall|k: int| 0 <= k < s.len() ==> (#[trigger] s[k]).prog_num != n,
    ensures
        pids_of_program(s, n) == Seq::<u16>::empty(),
    decreases s.len(),
{
    if s.len() > 0 {
        assert forall|k: int| 0 <= k < s.drop_last().len() implies (
        #[trigger] s.drop_last()[k]).prog_num != n by {
            assert(s.drop_last()[k] == s[k]);
        }
        lemma_number_absent(s.drop_last(), n);
        assert(s.last() == s[s.len() - 1]);
    }
}

fn collect_pids(s: &[PatInfo], n: u16) -> (r: Vec<u16>)
    ensures
        r@ == pids_of_program(s@, n),
{
    let mut pids: Vec<u16> = Vec::new();
    let mut i: usize = 0;
    assert(s@.take(0) =~= Seq::<PatInfo>::empty());
    while i < s.len()
        invariant
            i <= s@.len(),
            pids@ == pids_of_program(s@.take(i as int), n),
        decreases s@.len() - i,
    {
        assert(s@.take(i + 1).drop_last() =~= s@.take(i as int));
        if s[i].prog_num == n {
            pids.push(s[i].pmt_pid);
        }
        i = i + 1;
    }
    assert(s@.take(s@.len() as int) =~= s@);
    pids
}

fn is_same_list(a: &Vec<u16>, b: &Vec<u16>) -> (r: bool)
    ensures
        r == (a@ == b@),
{
    if a.len() != b.len() {
        return false;
    }
    let mut i: usize = 0;
    while i < a.len()
        invariant
            i <= a@.len(),
            a@.len() == b@.len(),
            forall|k: int| 0 <= k < i ==> a@[k] == b@[k],
        decreases a@.len() - i,
    {
        if a[i] != b[i] {
            return false;
        }
        i = i + 1;
    }
    assert(a@ =~= b@);
    true
}

/// Whether two tables agree on each number that `of` lists.
fn agree_on(of: &[PatInfo], a: &[PatInfo], b: &[PatInfo]) -> (r: bool)
    ensures
        r == forall|k: int|
            0 <= k < of@.len() ==> pids_of_program(a@, (#[trigger] of@[k]).prog_num)
                == pids_of_program(b@, of@[k].prog_num),
{
    let mut i: usize = 0;
    while i < of.len()
        invariant
            i <= of@.len(),
            forall|k: int|
                0 <= k < i ==> pids_of_program(a@, (#[trigger] of@[k]).prog_num)
                    == pids_of_program(b@, of@[k].prog_num),
        decreases of@.len() - i,
    {
        let n: u16 = of[i].prog_num;
        if !is_same_list(&collect_pids(a, n), &collect_pids(b, n)) {
            assert(of@[i as int].prog_num == n);
            return false;
        }
        i = i + 1;
    }
    true
}

/// Whether two tables list different programs. The order of the numbers does not
/// count.
pub fn is_pat_changed(a: &[PatInfo], b: &[PatInfo]) -> (r: bool)
    ensures
        r == !same_programs(a@, b@),
{
    let same = agree_on(a, a, b) && agree_on(b, a, b);
    proof {
        if same {
            assert forall|n: u16| #[trigger]
                pids_of_program(a@, n) == pids_of_program(b@, n) by {
                if exists|k: int| 0 <= k < a@.len() && (#[trigger] a@[k]).prog_num == n {
                } else if exists|k: int| 0 <= k < b@.len() && (#[trigger] b@[k]).prog_num == n {
                } else {
                    lemma_number_absent(a@, n);
                    lemma_number_absent(b@, n);
                }
            }
        }
    }
    !same
}

/// What a receiver makes of a mapping: none for number 0, and the identifier
/// cut to thirteen bits.
pub open spec fn mapped_programs(mappings: Seq<(u16, u16)>) -> Seq<PatInfo>
    decreases mappings.len(),
{
    if mappings.len() == 0 {
        Seq::empty()
    } else {
        let rest = mapped_programs(mappings.drop_first());
        if mappings[0].0 != 0 {
            seq![PatInfo { prog_num: mappings[0].0, pmt_pid: mappings[0].1 % 0x2000 }] + rest
        } else {
            rest
        }
    }
}

/// Reading entries gives the programs that they were written from, whatever
/// four bytes follow.
proof fn lemma_entries_read(mappings: Seq<(u16, u16)>, tail: Seq<u8>)
    requires
        tail.len() == 4,
    ensures
        pat_programs_of(pat_entries(mappings) + tail) == mapped_programs(mappings),
    decreases mappings.len(),
{
    let all = pat_entries(mappings) + tail;
    if mappings.len() > 0 {
        let e = pat_entry_bytes(mappings[0]);
        lemma_entries_read(mappings.drop_first(), tail);
        assert(all.skip(4) =~= pat_entries(mappings.drop_first()) + tail);
        assert(all[0] == e[0] && all[1] == e[1] && all[2] == e[2] && all[3] == e[3]);
        assert(pat_entry(all) == (PatInfo {
            prog_num: mappings[0].0,
            pmt_pid: mappings[0].1 % 0x2000,
        }));
    }
}

/// A table that was written lists what it was written from.
pub proof fn law_patched_pat_lists(original: Seq<u8>, mappings: Seq<(u16, u16)>)
    requires
        original.len() >= 8,
    ensures
        pat_programs(patched_pat(original, mappings)) == mapped_programs(mappings),
{
    let body = original.take(8) + pat_entries(mappings);
    let tail = lemma_finished_tail(body, 8);
    lemma_entries_read(mappings, tail);
    assert(body.skip(8) =~= pat_entries(mappings));
}

} // verus!
