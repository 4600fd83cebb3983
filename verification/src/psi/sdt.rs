//! The service description table: names and kinds of the services.

use crate::bits::{be16, join16};
use crate::packet::TS_PACKET_SIZE;
use crate::psi::crc::{push_crc, with_crc};
use crate::psi::header::{lemma_finished_tail, set_section_length12, with_length12};
use crate::psi::section::{pack, section_packet};
use crate::psi::time::{high, low};
use crate::text::{latin_cyrillic, latin_cyrillic_of, lossy_text, utf8_lossy, wide, wide_of};
use vstd::prelude::*;
use vstd::utf8::encode_utf8;

verus! {

/// A service as a table describes it.
#[derive(Debug, Clone)]
pub struct SdtInfo {
    pub service_id: u16,
    pub service_type: u8,
    pub provider_name: String,
    pub service_name: String,
    pub running_status: u8,
}

/// What a table says of a service.
pub struct SdtModel {
    pub service_id: u16,
    pub service_type: u8,
    pub provider_name: Seq<char>,
    pub service_name: Seq<char>,
    pub running_status: u8,
}

impl View for SdtInfo {
    type V = SdtModel;

    open spec fn view(&self) -> SdtModel {
        SdtModel {
            service_id: self.service_id,
            service_type: self.service_type,
            provider_name: self.provider_name@,
            service_name: self.service_name@,
            running_status: self.running_status,
        }
    }
}

impl Default for SdtInfo {
    fn default() -> (r: Self)
        ensures
            r@ == (SdtModel {
                service_id: 0,
                service_type: 0,
                provider_name: Seq::empty(),
                service_name: Seq::empty(),
                running_status: 0,
            }),
    {
        SdtInfo {
            service_id: 0,
            service_type: 0,
            provider_name: String::new(),
            service_name: String::new(),
            running_status: 0,
        }
    }
}

/// What the services of a list are.
pub open spec fn services_view(s: Seq<SdtInfo>) -> Seq<SdtModel> {
    s.map_values(|i: SdtInfo| i@)
}

/// A text of a table. Its first byte may select the character table.
pub open spec fn dvb_string_of(bytes: Seq<u8>) -> Seq<char> {
    if bytes.len() == 0 {
        Seq::empty()
    } else if bytes[0] == 0x01 {
        latin_cyrillic_of(bytes.skip(1))
    } else if bytes[0] == 0x11 && bytes.len() % 2 == 1 {
        wide_of(bytes.skip(1))
    } else if bytes[0] >= 0x20 {
        lossy_text(bytes)
    } else {
        lossy_text(bytes.skip(1))
    }
}

/// A text of a table. Its first byte may select the character table.
pub fn parse_dvb_string(bytes: &[u8]) -> (r: String)
    requires
        bytes@.len() <= usize::MAX / 8,
    ensures
        r@ == dvb_string_of(bytes@),
{
    if bytes.len() == 0 {
        return String::new();
    }
    let data = vstd::slice::slice_subrange(bytes, 1, bytes.len());
    assert(data@ =~= bytes@.skip(1));
    let table: u8 = bytes[0];
    if table == 0x01 {
        latin_cyrillic(data)
    } else if table == 0x11 && data.len() % 2 == 0 {
        wide(data)
    } else if table >= 0x20 {
        utf8_lossy(bytes)
    } else {
        utf8_lossy(data)
    }
}

/// What is left behind the first `n` bytes.
pub open spec fn behind(s: Seq<u8>, n: int) -> Seq<u8> {
    if n <= s.len() {
        s.skip(n)
    } else {
        Seq::empty()
    }
}

/// The service that a descriptor of `len` bytes describes; none where it lies
/// behind the end. A name that does not fit into the descriptor is left out.
pub open spec fn service_of(d: Seq<u8>, len: int, service_id: u16, running_status: u8) -> Option<
    SdtModel,
> {
    if d.len() < 2 {
        None
    } else {
        let at = 2 + d[1] as int;
        let bare = SdtModel {
            service_id,
            service_type: d[0],
            provider_name: Seq::empty(),
            service_name: Seq::empty(),
            running_status,
        };
        if at > len {
            Some(bare)
        } else if at > d.len() {
            None
        } else {
            let provided = SdtModel { provider_name: dvb_string_of(d.subrange(2, at)), ..bare };
            if at + 1 > len {
                Some(provided)
            } else if at >= d.len() {
                None
            } else if at + 1 + d[at] > len {
                Some(provided)
            } else if at + 1 + d[at] > d.len() {
                None
            } else {
                Some(
                    SdtModel {
                        service_name: dvb_string_of(d.subrange(at + 1, at + 1 + d[at])),
                        ..provided
                    },
                )
            }
        }
    }
}

/// The services that the rest of a table describes, of which the next `left`
/// bytes are descriptors of a service; none where something lies behind the
/// end. The checksum at the end is left aside.
pub open spec fn services_from(
    rest: Seq<u8>,
    left: int,
    service_id: u16,
    running_status: u8,
) -> Option<Seq<SdtModel>>
    decreases rest.len(),
{
    if left >= 2 {
        if rest.len() < 2 {
            None
        } else {
            let len = rest[1] as int;
            let more = services_from(
                behind(rest, 2 + len),
                left - 2 - len,
                service_id,
                running_status,
            );
            if rest[0] == 0x48 && len <= left - 2 {
                match (service_of(rest.skip(2), len, service_id, running_status), more) {
                    (Some(service), Some(services)) => Some(seq![service] + services),
                    _ => None,
                }
            } else {
                more
            }
        }
    } else if rest.len() < 9 {
        Some(Seq::empty())
    } else {
        services_from(
            rest.skip(5),
            (rest[3] as int % 16) * 256 + rest[4],
            be16(rest[0], rest[1]) as u16,
            rest[2] / 32,
        )
    }
}

/// The services that a section describes: none of another table; no answer
/// where its lengths announce more than it holds.
pub open spec fn sdt_services(section: Seq<u8>) -> Option<Seq<SdtModel>> {
    if section.len() < 11 || section[0] != 0x42 {
        Some(Seq::empty())
    } else {
        services_from(section.skip(11), 0, 0, 0)
    }
}

fn read_service(
    section: &[u8],
    pos: usize,
    len: usize,
    service_id: u16,
    running_status: u8,
) -> (r: Option<SdtInfo>)
    requires
        pos <= section@.len(),
        len <= 255,
    ensures
        r is Some == service_of(
            section@.skip(pos as int),
            len as int,
            service_id,
            running_status,
        ) is Some,
        r matches Some(s) ==> service_of(
            section@.skip(pos as int),
            len as int,
            service_id,
            running_status,
        ) == Some(s@),
{
    let ghost d = section@.skip(pos as int);
    let size: usize = section.len() - pos;
    if size < 2 {
        return None;
    }
    let mut info = SdtInfo {
        service_id,
        service_type: section[pos],
        provider_name: String::new(),
        service_name: String::new(),
        running_status,
    };
    let at: usize = 2 + section[pos + 1] as usize;
    assert(d[0] == section@[pos as int] && d[1] == section@[pos + 1]);
    assert(info.provider_name@ =~= Seq::<char>::empty());
    assert(info.service_name@ =~= Seq::<char>::empty());
    if at > len {
        return Some(info);
    }
    if at > size {
        return None;
    }
    info.provider_name =
    parse_dvb_string(vstd::slice::slice_subrange(section, pos + 2, pos + at));
    assert(d.subrange(2, at as int) =~= section@.subrange(pos + 2, pos + at));
    if at + 1 > len {
        return Some(info);
    }
    if at >= size {
        return None;
    }
    let name_len: usize = section[pos + at] as usize;
    if at + 1 + name_len > len {
        return Some(info);
    }
    if at + 1 + name_len > size {
        return None;
    }
    info.service_name =
    parse_dvb_string(
        vstd::slice::slice_subrange(section, pos + at + 1, pos + at + 1 + name_len),
    );
    assert(d.subrange(at + 1, at + 1 + name_len) =~= section@.subrange(
        pos + at + 1,
        pos + at + 1 + name_len,
    ));
    Some(info)
}

/// Reads the services of a table; none where its lengths announce more than it
/// holds.
pub fn try_analyze_sdt(section: &[u8]) -> (r: Option<Vec<SdtInfo>>)
    ensures
        r is Some == sdt_services(section@) is Some,
        r matches Some(s) ==> sdt_services(section@) == Some(services_view(s@)),
{
    let mut services: Vec<SdtInfo> = Vec::new();
    assert(services_view(services@) =~= Seq::<SdtModel>::empty());
    if section.len() < 11 || section[0] != 0x42 {
        return Some(services);
    }
    let mut pos: usize = 11;
    // The descriptors of a service take what is left, at least two bytes.
    let mut left: usize = 0;
    let mut service_id: u16 = 0;
    let mut running_status: u8 = 0;
    let ghost whole = sdt_services(section@);
    assert(whole is Some ==> whole->0 =~= services_view(services@) + whole->0);
    assert(services_from(section@.skip(11), 0, 0, 0) == sdt_services(section@));
    while left >= 2 || section.len() - pos >= 9
        invariant
            11 <= pos <= section@.len(),
            section@.len() == section.len(),
            left <= 4095,
            whole == sdt_services(section@),
            whole is Some == services_from(
                section@.skip(pos as int),
                left as int,
                service_id,
                running_status,
            ) is Some,
            whole is Some ==> whole->0 == services_view(services@) + services_from(
                section@.skip(pos as int),
                left as int,
                service_id,
                running_status,
            )->0,
        decreases section@.len() - pos,
    {
        let ghost rest = section@.skip(pos as int);
        if left >= 2 {
            if section.len() - pos < 2 {
                return None;
            }
            let tag: u8 = section[pos];
            let len: usize = section[pos + 1] as usize;
            assert(rest[0] == tag && rest[1] == len);
            let ghost more = services_from(
                behind(rest, 2 + len as int),
                left - 2 - len,
                service_id,
                running_status,
            );
            if tag == 0x48 && len <= left - 2 {
                assert(rest.skip(2) =~= section@.skip(pos + 2));
                match read_service(section, pos + 2, len, service_id, running_status) {
                    Some(info) => {
                        let ghost before = services@;
                        services.push(info);
                        proof {
                            assert(services_view(services@) =~= services_view(before).push(info@));
                            if more is Some {
                                assert(services_view(before) + (seq![info@] + more->0)
                                    =~= services_view(services@) + more->0);
                            }
                        }
                    },
                    None => {
                        return None;
                    },
                }
            }
            let ghost left_before = left as int;
            // A length below zero ends the descriptors as zero does.
            left = if left - 2 >= len {
                left - 2 - len
            } else {
                0
            };
            if len > section.len() - pos - 2 {
                assert(behind(rest, 2 + len as int) =~= section@.skip(section@.len() as int));
                pos = section.len();
            } else {
                assert(behind(rest, 2 + len as int) =~= section@.skip(pos + 2 + len));
                pos = pos + 2 + len;
            }
            proof {
                lemma_no_descriptors(
                    section@.skip(pos as int),
                    left_before - 2 - len,
                    left as int,
                    service_id,
                    running_status,
                );
            }
        } else {
            service_id = join16(section[pos], section[pos + 1]);
            running_status = section[pos + 2] / 32;
            left = join16(section[pos + 3] % 16, section[pos + 4]) as usize;
            assert(rest[0] == section@[pos as int] && rest[1] == section@[pos + 1] && rest[2]
                == section@[pos + 2] && rest[3] == section@[pos + 3] && rest[4] == section@[pos
                + 4]);
            assert(rest.skip(5) =~= section@.skip(pos + 5));
            pos = pos + 5;
        }
    }
    assert(services_view(services@) + Seq::<SdtModel>::empty() =~= services_view(services@));
    Some(services)
}

/// Below two bytes it does not matter how few are left.
proof fn lemma_no_descriptors(rest: Seq<u8>, a: int, b: int, service_id: u16, running_status: u8)
    requires
        a == b || (a < 2 && b < 2),
    ensures
        services_from(rest, a, service_id, running_status) == services_from(
            rest,
            b,
            service_id,
            running_status,
        ),
{
}

/// Reads the services of a table.
pub fn analyze_sdt(section: &[u8]) -> (r: Vec<SdtInfo>)
    requires
        sdt_services(section@) is Some,
    ensures
        sdt_services(section@) == Some(services_view(r@)),
{
    match try_analyze_sdt(section) {
        Some(services) => services,
        None => Vec::new(),
    }
}

/// A text in UTF-8 behind the byte that says so.
pub open spec fn encoded_name(text: Seq<char>) -> Seq<u8> {
    seq![0x15u8] + encode_utf8(text)
}

fn encode_dvb_string(text: &str) -> (r: Vec<u8>)
    ensures
        r@ == encoded_name(text@),
{
    let mut v: Vec<u8> = Vec::new();
    v.push(0x15);
    v.extend_from_slice(text.as_bytes());
    assert(v@ =~= encoded_name(text@));
    v
}

/// The descriptor of a service; lengths are cut to a byte.
pub open spec fn service_descriptor(
    service_type: u8,
    provider: Seq<char>,
    service: Seq<char>,
) -> Seq<u8> {
    let p = encoded_name(provider);
    let s = encoded_name(service);
    seq![
        0x48u8,
        ((3 + p.len() + s.len()) % 256) as u8,
        service_type,
        (p.len() % 256) as u8,
    ] + p + seq![(s.len() % 256) as u8] + s
}

/// The entry of a running service, its length cut to sixteen bits.
pub open spec fn service_entry(service_id: u16, descriptor: Seq<u8>) -> Seq<u8> {
    let n = descriptor.len() % 65536;
    seq![
        (service_id / 256) as u8,
        (service_id % 256) as u8,
        0x81u8,
        ((n / 256) as u8) | 0xF0,
        (n % 256) as u8,
    ] + descriptor
}

/// A table with the header of another that describes one service.
pub open spec fn patched_sdt(
    original: Seq<u8>,
    service_id: u16,
    service_type: u8,
    provider: Seq<char>,
    service: Seq<char>,
) -> Seq<u8> {
    with_crc(
        with_length12(
            original.take(11) + service_entry(
                service_id,
                service_descriptor(service_type, provider, service),
            ),
        ),
    )
}

/// Writes a table with the header of `original_section` that describes one
/// running service.
pub fn patch_sdt_section(
    original_section: &[u8],
    new_service_id: u16,
    service_type: u8,
    provider_name: &str,
    service_name: &str,
) -> (r: Vec<u8>)
    requires
        original_section@.len() >= 11,
    ensures
        r@ == patched_sdt(
            original_section@,
            new_service_id,
            service_type,
            provider_name@,
            service_name@,
        ),
{
    let prov_bytes = encode_dvb_string(provider_name);
    let serv_bytes = encode_dvb_string(service_name);
    let mut descriptor: Vec<u8> = Vec::new();
    descriptor.push(0x48);
    descriptor.push(((3 + prov_bytes.len() % 256 + serv_bytes.len() % 256) % 256) as u8);
    descriptor.push(service_type);
    descriptor.push((prov_bytes.len() % 256) as u8);
    descriptor.extend_from_slice(prov_bytes.as_slice());
    descriptor.push((serv_bytes.len() % 256) as u8);
    descriptor.extend_from_slice(serv_bytes.as_slice());
    assert(descriptor@ =~= service_descriptor(service_type, provider_name@, service_name@));
    let mut out: Vec<u8> = Vec::new();
    out.extend_from_slice(vstd::slice::slice_subrange(original_section, 0, 11));
    out.push(high(new_service_id));
    out.push(low(new_service_id));
    out.push(0x81);
    let desc_len: u16 = (descriptor.len() % 65536) as u16;
    out.push(high(desc_len) | 0xF0);
    out.push(low(desc_len));
    out.extend_from_slice(descriptor.as_slice());
    assert(out@ =~= original_section@.take(11) + service_entry(new_service_id, descriptor@));
    set_section_length12(&mut out);
    push_crc(&mut out);
    out
}

/// The header of a table that is written anew.
pub open spec fn new_sdt_header(transport_stream_id: u16) -> Seq<u8> {
    seq![
        0x42u8,
        0xF0,
        0x00,
        (transport_stream_id / 256) as u8,
        (transport_stream_id % 256) as u8,
        0xC1,
        0x00,
        0x00,
        0x00,
        0x01,
        0xFF,
    ]
}

/// The first packet of a table that is written anew for one service.
pub open spec fn prepared_sdt(
    transport_stream_id: u16,
    program_id: u16,
    service_type: u8,
    provider: Seq<char>,
    service: Seq<char>,
) -> Seq<u8> {
    section_packet(
        patched_sdt(
            new_sdt_header(transport_stream_id),
            program_id,
            service_type,
            provider,
            service,
        ),
        0x0011,
        0,
        0,
    )
}

/// Writes the packet of a table that describes one running service.
pub fn prepare_sdt(
    transport_stream_id: u16,
    program_id: u16,
    service_type: u8,
    provider_name: &str,
    service_name: &str,
) -> (r: [u8; TS_PACKET_SIZE])
    ensures
        r@ == prepared_sdt(
            transport_stream_id,
            program_id,
            service_type,
            provider_name@,
            service_name@,
        ),
{
    let header: [u8; 11] = [
        0x42,
        0xF0,
        0x00,
        high(transport_stream_id),
        low(transport_stream_id),
        0xC1,
        0x00,
        0x00,
        0x00,
        0x01,
        0xFF,
    ];
    assert(header@ =~= new_sdt_header(transport_stream_id));
    let section = patch_sdt_section(
        header.as_slice(),
        program_id,
        service_type,
        provider_name,
        service_name,
    );
    pack(section.as_slice(), 0x0011, 0)
}

proof fn lemma_nibble_of_length(h: u8)
    by (bit_vector)
    requires
        h < 16,
    ensures
        (h | 0xF0) == 0xF0 + h,
{
}

proof fn lemma_encoded_name_read(text: Seq<char>)
    ensures
        dvb_string_of(encoded_name(text)) == text,
{
    let b = encoded_name(text);
    assert(b.skip(1) =~= encode_utf8(text));
    vstd::utf8::encode_utf8_valid_utf8(text);
    vstd::utf8::encode_utf8_decode_utf8(text);
}

/// A descriptor is read back as the service that it was written for.
proof fn lemma_descriptor_read(
    service_id: u16,
    service_type: u8,
    provider: Seq<char>,
    service: Seq<char>,
    tail: Seq<u8>,
)
    requires
        encode_utf8(provider).len() + encode_utf8(service).len() + 5 <= 255,
    ensures
        ({
            let d = service_descriptor(service_type, provider, service);
            service_of((d + tail).skip(2), d.len() - 2, service_id, 4) == Some(
                SdtModel {
                    service_id,
                    service_type,
                    provider_name: provider,
                    service_name: service,
                    running_status: 4,
                },
            )
        }),
{
    let p = encoded_name(provider);
    let s = encoded_name(service);
    let d = service_descriptor(service_type, provider, service);
    let plen = p.len() as int;
    let slen = s.len() as int;
    let x = (d + tail).skip(2);
    assert(d.len() == 5 + plen + slen);
    assert(x[0] == d[2] && x[1] == d[3]);
    assert(x.subrange(2, 2 + plen) =~= p);
    assert(x[2 + plen] == d[4 + plen]);
    assert(d[4 + plen] == slen);
    assert(x.subrange(3 + plen, 3 + plen + slen) =~= s);
    lemma_encoded_name_read(provider);
    lemma_encoded_name_read(service);
}

/// One descriptor of a service with nothing but a checksum behind it.
proof fn lemma_one_descriptor(
    service_id: u16,
    service_type: u8,
    provider: Seq<char>,
    service: Seq<char>,
    tail: Seq<u8>,
)
    requires
        encode_utf8(provider).len() + encode_utf8(service).len() + 5 <= 255,
        tail.len() == 4,
    ensures
        ({
            let d = service_descriptor(service_type, provider, service);
            services_from(d + tail, d.len() as int, service_id, 4) == Some(
                seq![
                    SdtModel {
                        service_id,
                        service_type,
                        provider_name: provider,
                        service_name: service,
                        running_status: 4,
                    },
                ],
            )
        }),
{
    let d = service_descriptor(service_type, provider, service);
    let inner = d + tail;
    lemma_descriptor_read(service_id, service_type, provider, service, tail);
    let model = SdtModel {
        service_id,
        service_type,
        provider_name: provider,
        service_name: service,
        running_status: 4,
    };
    assert(inner[0] == d[0] && inner[1] == d[1]);
    assert(d[1] == d.len() - 2);
    assert(behind(inner, d.len() as int) =~= tail);
    assert(services_from(tail, 0, service_id, 4) == Some(Seq::<SdtModel>::empty()));
    assert(seq![model] + Seq::<SdtModel>::empty() =~= seq![model]);
}

/// The head of an entry leads to the descriptors behind it.
proof fn lemma_entry_head(service_id: u16, d: Seq<u8>, tail: Seq<u8>)
    requires
        d.len() <= 4095,
        tail.len() == 4,
    ensures
        services_from(service_entry(service_id, d) + tail, 0, 0, 0) == services_from(
            d + tail,
            d.len() as int,
            service_id,
            4,
        ),
{
    let rest = service_entry(service_id, d) + tail;
    let n = d.len() as int;
    let h = (n / 256) as u8;
    lemma_nibble_of_length(h);
    assert(rest.skip(5) =~= d + tail);
    assert(rest[0] == (service_id / 256) as u8);
    assert(rest[1] == (service_id % 256) as u8);
    assert(rest[2] == 0x81u8);
    assert(rest[3] == 0xF0 + h);
    assert(rest[4] == (n % 256) as u8);
    assert((rest[3] as int % 16) * 256 + rest[4] == n);
    assert(be16(rest[0], rest[1]) == service_id);
}

/// A table with one entry is read by the descriptors of that entry.
proof fn lemma_one_entry(original: Seq<u8>, service_id: u16, d: Seq<u8>) -> (tail: Seq<u8>)
    requires
        original.len() >= 11,
        original[0] == 0x42,
        d.len() <= 4095,
    ensures
        tail.len() == 4,
        sdt_services(with_crc(with_length12(original.take(11) + service_entry(service_id, d))))
            == services_from(d + tail, d.len() as int, service_id, 4),
{
    let entry = service_entry(service_id, d);
    let body = original.take(11) + entry;
    let tail = lemma_finished_tail(body, 11);
    assert(body.skip(11) =~= entry);
    assert(with_crc(with_length12(body))[0] == original[0]);
    lemma_entry_head(service_id, d, tail);
    tail
}

/// A table that describes a service is read back as that service, as long as
/// the names fit into a descriptor.
pub proof fn law_patched_sdt_describes(
    original: Seq<u8>,
    service_id: u16,
    service_type: u8,
    provider: Seq<char>,
    service: Seq<char>,
)
    requires
        original.len() >= 11,
        original[0] == 0x42,
        encode_utf8(provider).len() + encode_utf8(service).len() + 5 <= 255,
    ensures
        sdt_services(patched_sdt(original, service_id, service_type, provider, service)) == Some(
            seq![
                SdtModel {
                    service_id,
                    service_type,
                    provider_name: provider,
                    service_name: service,
                    running_status: 4,
                },
            ],
        ),
{
    let d = service_descriptor(service_type, provider, service);
    let tail = lemma_one_entry(original, service_id, d);
    lemma_one_descriptor(service_id, service_type, provider, service, tail);
}

} // verus!
