//! Descrambling with a fixed key: how a key is written, and which part of a
//! packet is scrambled. The cipher itself is not here: what it makes of a
//! payload is handed in.

use crate::packet::{payload_start, TS_PACKET_SIZE, TS_SYNC_BYTE};
use crate::text::{trim, trimmed};
use vstd::prelude::*;
use vstd::utf8::encode_utf8;

verus! {

/// Why a key is refused.
#[derive(Debug, Clone, Copy, PartialEq, Eq, Structural)]
pub enum BissError {
    /// No key is given.
    Empty,
    /// It is not of twelve or sixteen hexadecimal digits.
    Length,
    /// One of its characters is no hexadecimal digit.
    Digit,
}

/// What is said of a refused key.
pub open spec fn refusal_words(e: BissError) -> Seq<char> {
    match e {
        BissError::Empty => "BISS key is empty"@,
        BissError::Length => "BISS-1 key must be 12 or 16 hex digits"@,
        BissError::Digit => "invalid hex digit"@,
    }
}

impl BissError {
    /// What is said of a refused key.
    pub fn message(&self) -> (r: &'static str)
        ensures
            r@ == refusal_words(*self),
    {
        match self {
            BissError::Empty => "BISS key is empty",
            BissError::Length => "BISS-1 key must be 12 or 16 hex digits",
            BissError::Digit => "invalid hex digit",
        }
    }
}

/// The value of a hexadecimal digit.
pub open spec fn hex_digit(b: u8) -> Option<u8> {
    if 0x30 <= b <= 0x39 {
        Some((b - 0x30) as u8)
    } else if 0x61 <= b <= 0x66 {
        Some((b - 0x61 + 10) as u8)
    } else if 0x41 <= b <= 0x46 {
        Some((b - 0x41 + 10) as u8)
    } else {
        None
    }
}

/// The bytes that pairs of hexadecimal digits stand for.
pub open spec fn hex_bytes(s: Seq<u8>) -> Option<Seq<u8>>
    decreases s.len(),
{
    if s.len() < 2 {
        Some(Seq::empty())
    } else {
        match (hex_digit(s[0]), hex_digit(s[1]), hex_bytes(s.skip(2))) {
            (Some(hi), Some(lo), Some(rest)) => Some(seq![(hi * 16 + lo) as u8] + rest),
            _ => None,
        }
    }
}

/// The digits of a key: without white space around it and `0x` before it.
pub open spec fn key_digits(key: Seq<char>) -> Seq<u8> {
    let b = encode_utf8(trimmed(key));
    if b.len() >= 2 && b[0] == 0x30 && b[1] == 0x78 {
        b.skip(2)
    } else {
        b
    }
}

/// The eight bytes of a control word. Six bytes get a sum behind each three.
pub open spec fn control_word(b: Seq<u8>) -> Seq<u8> {
    if b.len() == 8 {
        b
    } else {
        seq![
            b[0],
            b[1],
            b[2],
            ((b[0] + b[1] + b[2]) % 256) as u8,
            b[3],
            b[4],
            b[5],
            ((b[3] + b[4] + b[5]) % 256) as u8,
        ]
    }
}

/// The control word of a key, or why there is none.
pub open spec fn key_word(key: Seq<char>) -> Result<Seq<u8>, BissError> {
    let d = key_digits(key);
    if d.len() != 12 && d.len() != 16 {
        Err(BissError::Length)
    } else {
        match hex_bytes(d) {
            Some(b) => Ok(control_word(b)),
            None => Err(BissError::Digit),
        }
    }
}

fn hex_val(b: u8) -> (r: Result<u8, BissError>)
    ensures
        r is Ok == hex_digit(b) is Some,
        r matches Ok(v) ==> hex_digit(b) == Some(v) && v < 16,
        r matches Err(e) ==> e == BissError::Digit,
{
    if 0x30 <= b && b <= 0x39 {
        Ok(b - 0x30)
    } else if 0x61 <= b && b <= 0x66 {
        Ok(b - 0x61 + 10)
    } else if 0x41 <= b && b <= 0x46 {
        Ok(b - 0x41 + 10)
    } else {
        Err(BissError::Digit)
    }
}

proof fn lemma_hex_len(s: Seq<u8>)
    ensures
        hex_bytes(s) matches Some(b) ==> b.len() == s.len() / 2,
    decreases s.len(),
{
    if s.len() >= 2 {
        lemma_hex_len(s.skip(2));
    }
}

fn parse_hex_bytes(s: &[u8]) -> (r: Result<Vec<u8>, BissError>)
    requires
        s@.len() % 2 == 0,
    ensures
        r is Ok == hex_bytes(s@) is Some,
        r matches Ok(v) ==> hex_bytes(s@) == Some(v@) && v@.len() == s@.len() / 2,
        r matches Err(e) ==> e == BissError::Digit,
{
    let mut out: Vec<u8> = Vec::new();
    let mut i: usize = 0;
    let ghost whole = hex_bytes(s@);
    assert(s@.skip(0) =~= s@);
    assert(whole is Some ==> whole->0 =~= out@ + whole->0);
    while i < s.len()
        invariant
            i <= s@.len(),
            i % 2 == 0,
            s@.len() % 2 == 0,
            s@.len() == s.len(),
            whole == hex_bytes(s@),
            whole is Some == hex_bytes(s@.skip(i as int)) is Some,
            whole is Some ==> whole->0 == out@ + hex_bytes(s@.skip(i as int))->0,
        decreases s@.len() - i,
    {
        let ghost rest = s@.skip(i as int);
        let ghost before = out@;
        assert(rest[0] == s@[i as int] && rest[1] == s@[i + 1]);
        assert(rest.skip(2) =~= s@.skip(i + 2));
        let hi: u8 = match hex_val(s[i]) {
            Ok(v) => v,
            Err(e) => return Err(e),
        };
        let lo: u8 = match hex_val(s[i + 1]) {
            Ok(v) => v,
            Err(e) => return Err(e),
        };
        out.push(hi * 16 + lo);
        proof {
            if hex_bytes(rest.skip(2)) is Some {
                let more = hex_bytes(rest.skip(2))->0;
                assert(before + (seq![(hi * 16 + lo) as u8] + more) =~= out@ + more);
            }
        }
        i = i + 2;
    }
    assert(out@ + Seq::<u8>::empty() =~= out@);
    proof {
        lemma_hex_len(s@);
    }
    Ok(out)
}

/// The control word of a key.
fn parse_biss1_key(key_hex: &str) -> (r: Result<[u8; 8], BissError>)
    ensures
        r is Ok == key_word(key_hex@) is Ok,
        r matches Ok(w) ==> key_word(key_hex@) == Ok::<Seq<u8>, BissError>(w@),
        r matches Err(e) ==> key_word(key_hex@) == Err::<Seq<u8>, BissError>(e),
{
    let all = trim(key_hex).as_bytes();
    let from: usize = if all.len() >= 2 && all[0] == 0x30 && all[1] == 0x78 {
        2
    } else {
        0
    };
    let s = vstd::slice::slice_subrange(all, from, all.len());
    assert(s@ =~= key_digits(key_hex@));
    if s.len() != 12 && s.len() != 16 {
        return Err(BissError::Length);
    }
    let b = match parse_hex_bytes(s) {
        Ok(b) => b,
        Err(e) => return Err(e),
    };
    let w: [u8; 8] = if b.len() == 8 {
        [b[0], b[1], b[2], b[3], b[4], b[5], b[6], b[7]]
    } else {
        let sum1: u8 = ((b[0] as u32 + b[1] as u32 + b[2] as u32) % 256) as u8;
        let sum2: u8 = ((b[3] as u32 + b[4] as u32 + b[5] as u32) % 256) as u8;
        [b[0], b[1], b[2], sum1, b[3], b[4], b[5], sum2]
    };
    assert(w@ =~= control_word(b@));
    Ok(w)
}

/// The scrambled payload of a packet.
#[derive(Debug, Clone, Copy, PartialEq, Eq, Structural)]
pub struct Scrambled {
    /// Where it begins. It reaches to the end of the packet.
    pub offset: usize,
    /// Whether the odd key scrambled it, and not the even one.
    pub odd: bool,
}

/// The part of a packet that is scrambled, if there is one of more than seven
/// bytes and it is known with which key.
pub open spec fn scrambled_part(packet: Seq<u8>) -> Option<Scrambled> {
    match payload_start(packet) {
        Some(at) => if packet[0] == TS_SYNC_BYTE && packet[3] >= 0x80 && at + 7 < 188 {
            Some(Scrambled { offset: at as usize, odd: packet[3] >= 0xC0 })
        } else {
            None
        },
        None => None,
    }
}

/// A packet with its scrambled part replaced and the mark of it taken away.
pub open spec fn descrambled(packet: Seq<u8>, plain: Seq<u8>) -> Seq<u8> {
    packet.update(3, (packet[3] as int % 64) as u8).take(188 - plain.len()) + plain
}

/// A descrambler for one key.
#[derive(Debug, Clone, Copy, PartialEq, Eq)]
pub struct Biss1Descrambler {
    cw: [u8; 8],
}

impl Biss1Descrambler {
    /// The control word.
    pub closed spec fn word(&self) -> Seq<u8> {
        self.cw@
    }

    /// A descrambler for a key of twelve hexadecimal digits, or of sixteen with
    /// its sums.
    pub fn new_from_hex(key_hex: &str) -> (r: Result<Self, BissError>)
        ensures
            r is Ok == key_word(key_hex@) is Ok,
            r matches Ok(d) ==> key_word(key_hex@) == Ok::<Seq<u8>, BissError>(d.word()),
            r matches Err(e) ==> key_word(key_hex@) == Err::<Seq<u8>, BissError>(e),
    {
        match parse_biss1_key(key_hex) {
            Ok(cw) => Ok(Biss1Descrambler { cw }),
            Err(e) => Err(e),
        }
    }

    /// The control word, which both keys of the cipher are set to.
    pub fn control_word(&self) -> (r: [u8; 8])
        ensures
            r@ == self.word(),
    {
        self.cw
    }

    /// The part of a packet that is scrambled.
    pub fn scrambled(packet: &[u8]) -> (r: Option<Scrambled>)
        requires
            packet@.len() == 188,
        ensures
            r == scrambled_part(packet@),
            r matches Some(s) ==> 4 <= s.offset && s.offset + 7 < 188,
    {
        if packet[0] != TS_SYNC_BYTE {
            return None;
        }
        let control: u8 = (packet[3] / 16) % 4;
        let offset: usize = match control {
            1 => 4,
            3 => 5 + packet[4] as usize,
            _ => return None,
        };
        if offset + 7 >= TS_PACKET_SIZE || packet[3] < 0x80 {
            return None;
        }
        Some(Scrambled { offset, odd: packet[3] >= 0xC0 })
    }

    /// Puts the plain payload into a packet that is scrambled, and says whether
    /// it is. `plain` is what the cipher makes of the scrambled part.
    pub fn descramble_ts_packet(&self, packet: &mut [u8], plain: &[u8]) -> (r: bool)
        requires
            old(packet)@.len() == 188,
            scrambled_part(old(packet)@) matches Some(s) ==> plain@.len() == 188 - s.offset,
        ensures
            r == (scrambled_part(old(packet)@) is Some),
            r ==> final(packet)@ == descrambled(old(packet)@, plain@),
            !r ==> final(packet)@ == old(packet)@,
    {
        let offset: usize = match Self::scrambled(packet) {
            Some(s) => s.offset,
            None => return false,
        };
        let ghost marked = packet@.update(3, (packet@[3] as int % 64) as u8);
        packet[3] = packet[3] % 64;
        let mut i: usize = 0;
        while i < plain.len()
            invariant
                i <= plain@.len(),
                plain@.len() == 188 - offset,
                4 <= offset <= 188,
                packet@.len() == 188,
                marked.len() == 188,
                forall|j: int| 0 <= j < offset ==> packet@[j] == marked[j],
                forall|j: int| offset <= j < offset + i ==> packet@[j] == plain@[j - offset],
            decreases plain@.len() - i,
        {
            packet[offset + i] = plain[i];
            i = i + 1;
        }
        assert(packet@ =~= descrambled(old(packet)@, plain@));
        true
    }
}

/// A scrambled packet of a buffer: where it starts, and its scrambled part.
pub open spec fn scrambled_packets(data: Seq<u8>, at: int) -> Seq<(usize, Scrambled)>
    decreases data.len() - at,
{
    if at + 188 > data.len() {
        Seq::empty()
    } else {
        match scrambled_part(data.subrange(at, at + 188)) {
            Some(s) => seq![(at as usize, s)] + scrambled_packets(data, at + 188),
            None => scrambled_packets(data, at + 188),
        }
    }
}

/// Whether there is a payload for each scrambled packet, each as long as it has
/// to be.
pub open spec fn plain_fits(data: Seq<u8>, plain: Seq<Vec<u8>>) -> bool
    decreases data.len(),
{
    if data.len() < 188 {
        true
    } else {
        match scrambled_part(data.take(188)) {
            Some(s) => plain.len() > 0 && plain[0]@.len() == 188 - s.offset && plain_fits(
                data.skip(188),
                plain.drop_first(),
            ),
            None => plain_fits(data.skip(188), plain),
        }
    }
}

/// A buffer whose scrambled packets are replaced, one after the other, by what
/// the cipher makes of them, and how many they are. A rest that is no whole
/// packet stays as it is.
pub open spec fn descrambled_all(data: Seq<u8>, plain: Seq<Vec<u8>>) -> (Seq<u8>, nat)
    decreases data.len(),
{
    if data.len() < 188 {
        (data, 0)
    } else {
        let head = data.take(188);
        if scrambled_part(head) is Some {
            let rest = descrambled_all(data.skip(188), plain.drop_first());
            (descrambled(head, plain[0]@) + rest.0, rest.1 + 1)
        } else {
            let rest = descrambled_all(data.skip(188), plain);
            (head + rest.0, rest.1)
        }
    }
}

/// The bytes of one packet of a buffer.
pub(crate) fn packet_at(data: &[u8], at: usize) -> (r: [u8; TS_PACKET_SIZE])
    requires
        at + 188 <= data@.len(),
    ensures
        r@ == data@.subrange(at as int, at + 188),
{
    let mut packet: [u8; TS_PACKET_SIZE] = [0;TS_PACKET_SIZE];
    let mut i: usize = 0;
    while i < TS_PACKET_SIZE
        invariant
            i <= 188,
            at + 188 <= data@.len(),
            data@.len() == data.len(),
            packet@.len() == 188,
            forall|j: int| 0 <= j < i ==> packet@[j] == data@[at + j],
        decreases 188 - i,
    {
        packet[i] = data[at + i];
        i = i + 1;
    }
    assert(packet@ =~= data@.subrange(at as int, at + 188));
    packet
}

impl Biss1Descrambler {
    /// The scrambled packets of a buffer of whole packets.
    pub fn scrambled_ts_packets(&self, data: &[u8]) -> (r: Vec<(usize, Scrambled)>)
        ensures
            r@ == scrambled_packets(data@, 0),
    {
        let mut found: Vec<(usize, Scrambled)> = Vec::new();
        let mut at: usize = 0;
        assert(found@ + scrambled_packets(data@, 0) =~= scrambled_packets(data@, 0));
        while data.len() - at >= TS_PACKET_SIZE
            invariant
                at <= data@.len(),
                data@.len() == data.len(),
                found@ + scrambled_packets(data@, at as int) == scrambled_packets(data@, 0),
            decreases data@.len() - at,
        {
            let ghost before = found@;
            let ghost more = scrambled_packets(data@, at + 188);
            if let Some(s) = Self::scrambled(
                vstd::slice::slice_subrange(data, at, at + TS_PACKET_SIZE),
            ) {
                found.push((at, s));
                assert(before + (seq![(at, s)] + more) =~= found@ + more);
            }
            at = at + TS_PACKET_SIZE;
        }
        assert(found@ + Seq::<(usize, Scrambled)>::empty() =~= found@);
        found
    }

    /// Puts the plain payloads into the scrambled packets of a buffer of whole
    /// packets, and says how many they are. `plain` is what the cipher makes of
    /// their scrambled parts.
    pub fn descramble_ts_packets(&self, data: &mut [u8], plain: &Vec<Vec<u8>>) -> (r: usize)
        requires
            plain_fits(old(data)@, plain@),
        ensures
            final(data)@ == descrambled_all(old(data)@, plain@).0,
            r == descrambled_all(old(data)@, plain@).1,
    {
        let mut at: usize = 0;
        let mut processed: usize = 0;
        let ghost whole = descrambled_all(data@, plain@);
        assert(data@.skip(0) =~= data@);
        assert(plain@.skip(0) =~= plain@);
        assert(data@.take(0) + whole.0 =~= whole.0);
        while data.len() - at >= TS_PACKET_SIZE
            invariant
                at <= data@.len(),
                data@.len() == old(data)@.len(),
                processed <= plain@.len(),
                processed * 188 <= at,
                plain_fits(data@.skip(at as int), plain@.skip(processed as int)),
                data@.take(at as int) + descrambled_all(
                    data@.skip(at as int),
                    plain@.skip(processed as int),
                ).0 == whole.0,
                processed + descrambled_all(
                    data@.skip(at as int),
                    plain@.skip(processed as int),
                ).1 == whole.1,
            decreases data@.len() - at,
        {
            let ghost before = data@;
            let ghost rest = data@.skip(at as int);
            let ghost left = plain@.skip(processed as int);
            let mut packet = packet_at(data, at);
            assert(packet@ =~= rest.take(188));
            assert(rest.skip(188) =~= data@.skip(at + 188));
            let hit = Self::scrambled(packet.as_slice()).is_some();
            if hit {
                assert(left[0] == plain@[processed as int]);
                assert(left.drop_first() =~= plain@.skip(processed + 1));
                let ghost scrambled_packet = packet@;
                self.descramble_ts_packet(&mut packet, plain[processed].as_slice());
                let mut i: usize = 0;
                while i < TS_PACKET_SIZE
                    invariant
                        i <= 188,
                        at + 188 <= data@.len(),
                        at + 188 <= usize::MAX,
                        data@.len() == before.len(),
                        packet@.len() == 188,
                        forall|j: int| 0 <= j < at ==> data@[j] == before[j],
                        forall|j: int| at + i <= j < data@.len() ==> data@[j] == before[j],
                        forall|j: int| 0 <= j < i ==> data@[at + j] == packet@[j],
                    decreases 188 - i,
                {
                    data[at + i] = packet[i];
                    i = i + 1;
                }
                proof {
                    assert(data@.skip(at + 188) =~= before.skip(at + 188));
                    assert forall|j: int| at <= j < at + 188 implies data@[j] == packet@[j - at] by {
                        assert(data@[at + (j - at)] == packet@[j - at]);
                    }
                    assert(data@.take(at + 188) =~= before.take(at as int) + packet@);
                    let more = descrambled_all(
                        data@.skip(at + 188),
                        plain@.skip(processed + 1),
                    ).0;
                    assert(before.take(at as int) + (packet@ + more) =~= data@.take(at + 188)
                        + more);
                }
                processed = processed + 1;
            } else {
                proof {
                    let more = descrambled_all(data@.skip(at + 188), left).0;
                    assert(data@.take(at + 188) =~= data@.take(at as int) + packet@);
                    assert(data@.take(at as int) + (packet@ + more) =~= data@.take(at + 188)
                        + more);
                }
            }
            at = at + TS_PACKET_SIZE;
        }
        assert(data@.take(at as int) + data@.skip(at as int) =~= data@);
        processed
    }
}

/// Descrambling takes the mark of it away: nothing is scrambled afterwards, and
/// what stands before the payload is otherwise unchanged.
pub proof fn law_descrambled_is_plain(packet: Seq<u8>, plain: Seq<u8>)
    requires
        packet.len() == 188,
        scrambled_part(packet) matches Some(s) && plain.len() == 188 - s.offset,
    ensures
        scrambled_part(descrambled(packet, plain)) is None,
        descrambled(packet, plain).len() == 188,
        forall|i: int|
            0 <= i < 188 - plain.len() && i != 3 ==> #[trigger] descrambled(packet, plain)[i]
                == packet[i],
{
}

/// What a packet with a payload says of its scrambling: nothing in its first two values,
/// the even key in the third, the odd one in the fourth. A payload of seven bytes or fewer
/// is never scrambled.
pub proof fn law_scrambled_part_is_payload(packet: Seq<u8>, at: int)
    requires
        packet.len() == 188,
        packet[0] == 0x47,
        (packet[3] / 16) % 4 == 1 && at == 4 || (packet[3] / 16) % 4 == 3 && at == 5 + packet[4],
    ensures
        ({
            let part = scrambled_part(packet);
            &&& packet[3] / 64 < 2 ==> part is None
            &&& 188 - at <= 7 ==> part is None
            &&& packet[3] / 64 == 2 && 188 - at > 7 ==> part == Some(
                Scrambled { offset: at as usize, odd: false },
            )
            &&& packet[3] / 64 == 3 && 188 - at > 7 ==> part == Some(
                Scrambled { offset: at as usize, odd: true },
            )
        }),
{
}

/// The payload of a packet becomes the plain one, and of the byte with the mark only the
/// mark changes.
pub proof fn law_payload_is_replaced(packet: Seq<u8>, plain: Seq<u8>)
    requires
        packet.len() == 188,
        plain.len() <= 184,
    ensures
        descrambled(packet, plain).skip(188 - plain.len()) == plain,
        descrambled(packet, plain)[3] == packet[3] % 64,
{
    assert(descrambled(packet, plain).skip(188 - plain.len()) =~= plain);
}

/// Whether a character is a hexadecimal digit of a value.
pub open spec fn is_hex(c: u8, value: int) -> bool {
    &&& 0 <= value < 16
    &&& value < 10 ==> c == 0x30 + value
    &&& value >= 10 ==> c == 0x61 + value - 10 || c == 0x41 + value - 10
}

/// Whether a character is no hexadecimal digit.
pub open spec fn is_no_hex(c: u8) -> bool {
    !(0x30 <= c <= 0x39) && !(0x41 <= c <= 0x46) && !(0x61 <= c <= 0x66)
}

/// Digits are read as bytes, two for each, the higher one first; they are refused just
/// where one of them is no digit.
pub proof fn law_hex_is_read(s: Seq<u8>)
    requires
        s.len() % 2 == 0,
    ensures
        match hex_bytes(s) {
            Some(b) => b.len() * 2 == s.len() && (forall|i: int|
                #![trigger b[i]]
                0 <= i < b.len() ==> is_hex(s[2 * i], b[i] as int / 16) && is_hex(
                    s[2 * i + 1],
                    b[i] as int % 16,
                )),
            None => exists|i: int| 0 <= i < s.len() && is_no_hex(#[trigger] s[i]),
        },
    decreases s.len(),
{
    if s.len() >= 2 {
        let rest = s.skip(2);
        law_hex_is_read(rest);
        match (hex_digit(s[0]), hex_digit(s[1]), hex_bytes(rest)) {
            (Some(hi), Some(lo), Some(more)) => {
                let b = seq![(hi * 16 + lo) as u8] + more;
                assert(b[0] as int / 16 == hi && b[0] as int % 16 == lo);
                assert forall|i: int|
                    #![trigger b[i]]
                    0 <= i < b.len() implies is_hex(s[2 * i], b[i] as int / 16) && is_hex(
                    s[2 * i + 1],
                    b[i] as int % 16,
                ) by {
                    if i > 0 {
                        assert(b[i] == more[i - 1]);
                        assert(rest[2 * (i - 1)] == s[2 * i]);
                        assert(rest[2 * (i - 1) + 1] == s[2 * i + 1]);
                    }
                }
            },
            (None, _, _) => {
                assert(is_no_hex(s[0]));
            },
            (_, None, _) => {
                assert(is_no_hex(s[1]));
            },
            (_, _, None) => {
                let i = choose|i: int| 0 <= i < rest.len() && is_no_hex(#[trigger] rest[i]);
                assert(is_no_hex(s[i + 2]));
            },
        }
    }
}

/// A key of twelve digits or of sixteen that are digits is taken, and no other. A control
/// word has eight bytes. Of sixteen digits it holds the bytes; of twelve, the fourth and
/// the last byte are the sums of the three before them.
pub proof fn law_key_is_taken(key: Seq<char>)
    ensures
        ({
            let d = key_digits(key);
            let ok = (d.len() == 12 || d.len() == 16) && hex_bytes(d) is Some;
            &&& key_word(key) is Ok == ok
            &&& d.len() != 12 && d.len() != 16 ==> key_word(key) == Err::<Seq<u8>, BissError>(
                BissError::Length,
            )
            &&& ok ==> ({
                let w = key_word(key)->Ok_0;
                let b = hex_bytes(d)->0;
                &&& w.len() == 8
                &&& d.len() == 16 ==> w == b
                &&& d.len() == 12 ==> w.take(3) == b.take(3) && w.subrange(4, 7) == b.subrange(3, 6)
                    && w[3] == (w[0] + w[1] + w[2]) % 256 && w[7] == (w[4] + w[5] + w[6]) % 256
            })
        }),
{
    let d = key_digits(key);
    if (d.len() == 12 || d.len() == 16) && hex_bytes(d) is Some {
        law_hex_is_read(d);
        let b = hex_bytes(d)->0;
        let w = key_word(key)->Ok_0;
        if d.len() == 12 {
            assert(w.take(3) =~= b.take(3));
            assert(w.subrange(4, 7) =~= b.subrange(3, 6));
        }
    }
}

/// In a buffer every packet that is not scrambled stays as it is, no packet is scrambled
/// afterwards, and a rest that is no whole packet stays.
pub proof fn law_buffer_is_plain(data: Seq<u8>, plain: Seq<Vec<u8>>, k: int)
    requires
        plain_fits(data, plain),
        0 <= k,
    ensures
        ({
            let out = descrambled_all(data, plain).0;
            &&& out.len() == data.len()
            &&& (k + 1) * 188 <= data.len() ==> scrambled_part(
                out.subrange(k * 188, (k + 1) * 188),
            ) is None
            &&& (k + 1) * 188 <= data.len() && scrambled_part(
                data.subrange(k * 188, (k + 1) * 188),
            ) is None ==> out.subrange(k * 188, (k + 1) * 188) == data.subrange(
                k * 188,
                (k + 1) * 188,
            )
            &&& out.skip((data.len() as int / 188) * 188) == data.skip(
                (data.len() as int / 188) * 188,
            )
        }),
    decreases data.len(),
{
    let out = descrambled_all(data, plain).0;
    if data.len() >= 188 {
        let head = data.take(188);
        let rest = data.skip(188);
        let left = if scrambled_part(head) is Some {
            plain.drop_first()
        } else {
            plain
        };
        let first = if scrambled_part(head) is Some {
            descrambled(head, plain[0]@)
        } else {
            head
        };
        let more = descrambled_all(rest, left).0;
        assert(out == first + more);
        if scrambled_part(head) is Some {
            law_descrambled_is_plain(head, plain[0]@);
        }
        assert(first.len() == 188);
        assert(scrambled_part(first) is None);
        let j = if k > 0 {
            k - 1
        } else {
            0
        };
        law_buffer_is_plain(rest, left, j);
        if k == 0 {
            assert(out.subrange(0, 188) =~= first);
            assert(data.subrange(0, 188) =~= head);
        } else if (k + 1) * 188 <= data.len() {
            assert(out.subrange(k * 188, (k + 1) * 188) =~= more.subrange(j * 188, (j + 1) * 188));
            assert(data.subrange(k * 188, (k + 1) * 188) =~= rest.subrange(
                j * 188,
                (j + 1) * 188,
            ));
        }
        let n = (data.len() as int / 188) * 188;
        assert(rest.len() as int / 188 == data.len() as int / 188 - 1);
        assert(out.skip(n) =~= more.skip(n - 188));
        assert(data.skip(n) =~= rest.skip(n - 188));
    }
}

} // verus!
